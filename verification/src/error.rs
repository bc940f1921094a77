//! What can go wrong with the front matter of a document.

use vstd::prelude::*;

use crate::semver::{SemverError, SemverFault};
use crate::text::around;

verus! {

/// Why front matter cannot be read or changed.
#[derive(Debug)]
pub enum MetaError {
    /// The front matter is no YAML.
    InvalidYaml(serde_yaml::Error),
    /// The front matter cannot be written as YAML.
    Unserializable(serde_yaml::Error),
    /// The version cannot be bumped.
    Semver(SemverError),
}

/// What a [`MetaError`] says.
pub enum MetaFault {
    InvalidYaml,
    Unserializable,
    Semver(SemverFault),
}

impl View for MetaError {
    type V = MetaFault;

    open spec fn view(&self) -> MetaFault {
        match self {
            MetaError::InvalidYaml(_) => MetaFault::InvalidYaml,
            MetaError::Unserializable(_) => MetaFault::Unserializable,
            MetaError::Semver(e) => MetaFault::Semver(e@),
        }
    }
}

/// The message about a version that cannot be bumped.
pub open spec fn semver_message(e: SemverFault) -> Seq<char> {
    match e {
        SemverFault::Invalid(v) => "invalid semver '"@ + v + "'"@,
        SemverFault::Major(_) => "invalid major component"@,
        SemverFault::Minor(_) => "invalid minor component"@,
        SemverFault::Patch(_) => "invalid patch component"@,
        SemverFault::Level(level) => "level must be major/minor/patch, got '"@ + level + "'"@,
    }
}

/// The message about front matter that cannot be read or changed.
pub open spec fn message_spec(e: MetaFault) -> Seq<char> {
    match e {
        MetaFault::InvalidYaml => "invalid YAML frontmatter"@,
        MetaFault::Unserializable => "failed to serialise YAML"@,
        MetaFault::Semver(e) => semver_message(e),
    }
}

impl SemverError {
    /// What went wrong, in words.
    pub fn message(&self) -> (r: String)
        ensures
            r@ == semver_message(self@),
    {
        match self {
            SemverError::Invalid(v) => around("invalid semver '", v.as_str(), "'"),
            SemverError::Major(_) => "invalid major component".to_owned(),
            SemverError::Minor(_) => "invalid minor component".to_owned(),
            SemverError::Patch(_) => "invalid patch component".to_owned(),
            SemverError::Level(level) => around(
                "level must be major/minor/patch, got '",
                level.as_str(),
                "'",
            ),
        }
    }
}

impl MetaError {
    /// What went wrong, in words.
    pub fn message(&self) -> (r: String)
        ensures
            r@ == message_spec(self@),
    {
        match self {
            MetaError::InvalidYaml(_) => "invalid YAML frontmatter".to_owned(),
            MetaError::Unserializable(_) => "failed to serialise YAML".to_owned(),
            MetaError::Semver(e) => e.message(),
        }
    }
}

/// The messages, and what each error says. The message about a version, or about a level, holds it.
pub proof fn messages_say_what_is_wrong(v: Seq<char>)
    ensures
        message_spec(MetaFault::InvalidYaml) == "invalid YAML frontmatter"@,
        message_spec(MetaFault::Unserializable) == "failed to serialise YAML"@,
        message_spec(MetaFault::Semver(SemverFault::Invalid(v))) == "invalid semver '"@ + v + "'"@,
        message_spec(MetaFault::Semver(SemverFault::Major(v))) == "invalid major component"@,
        message_spec(MetaFault::Semver(SemverFault::Minor(v))) == "invalid minor component"@,
        message_spec(MetaFault::Semver(SemverFault::Patch(v))) == "invalid patch component"@,
        message_spec(MetaFault::Semver(SemverFault::Level(v)))
            == "level must be major/minor/patch, got '"@ + v + "'"@,
        forall|e: SemverFault|
            #[trigger] semver_message(e) == message_spec(MetaFault::Semver(e)),
{
}

/// Each error tells of its own kind.
pub proof fn errors_tell_their_kind(e: MetaError)
    ensures
        e is InvalidYaml <==> e@ is InvalidYaml,
        e is Unserializable <==> e@ is Unserializable,
        e matches MetaError::Semver(s) ==> e@ == MetaFault::Semver(s@),
{
}

} // verus!
