//! What a removal is pointed at: a remote, and a canonical path inside it.
use vstd::prelude::*;

use crate::error::{CliError, ExitCode, Result};
use crate::path;
use crate::path::{canonical, clean, clean_as_written};
use crate::remote;
use crate::remote::{is_slash, local_spelling, remote_name, Config};
use crate::text;
use crate::text::{first_of, is_space, trim};

verus! {

/// A remote's name, and a path inside the remote. The empty path is the whole remote.
#[derive(Debug, PartialEq, Eq)]
pub struct Target {
    pub remote: String,
    pub path: String,
}

/// What an argument means: the remote and the path it names, or why it is refused.
pub enum Meaning {
    Empty,
    LocalPath,
    NoRemote,
    BadName,
    Escapes,
    Named { remote: Seq<char>, path: Seq<char> },
}

/// What stands behind the first colon of an argument.
pub open spec fn behind_colon(spec: Seq<char>) -> Seq<char> {
    let s = trim(spec);
    let colon = first_of(s, ':');
    if colon == s.len() {
        Seq::empty()
    } else {
        s.skip(colon + 1)
    }
}

/// The meaning of an argument, where `path` is the canonical spelling of what stands behind
/// its colon.
pub open spec fn meaning_with(spec: Seq<char>, path: Option<Seq<char>>) -> Meaning {
    let s = trim(spec);
    let colon = first_of(s, ':');
    if s.len() == 0 {
        Meaning::Empty
    } else if local_spelling(s) {
        Meaning::LocalPath
    } else if colon == s.len() {
        Meaning::NoRemote
    } else if !remote_name(s.take(colon)) {
        Meaning::BadName
    } else {
        match path {
            None => Meaning::Escapes,
            Some(path) => Meaning::Named { remote: s.take(colon), path },
        }
    }
}

/// The meaning of an argument.
pub open spec fn meaning(spec: Seq<char>) -> Meaning {
    meaning_with(spec, clean(behind_colon(spec)))
}

/// What is said of `spec` where it is refused for the reason `m`.
pub open spec fn refusal_message(spec: Seq<char>, m: Meaning) -> Seq<char> {
    let s = trim(spec);
    let colon = first_of(s, ':');
    match m {
        Meaning::Empty => "no target given"@,
        Meaning::LocalPath => "'"@ + s + "' is a local path, not a remote"@,
        Meaning::NoRemote => "'"@ + s + "' is not a remote specification"@,
        Meaning::BadName => "'"@ + s.take(colon) + "' is not the name of a remote"@,
        Meaning::Escapes => "'"@ + s.skip(colon + 1) + "' escapes the remote with '..'"@,
        Meaning::Named { .. } => Seq::empty(),
    }
}

/// What a removal advises where its target is refused.
pub open spec fn refusal_advice(m: Meaning) -> Seq<char> {
    match m {
        Meaning::Empty => "Name what to remove, for example 'vault:photos/2024'."@,
        Meaning::LocalPath => "The removal commands operate on a remote, written REMOTE:PATH. Use your operating system's own tools to remove local files."@,
        Meaning::NoRemote => "Write the target as REMOTE:PATH, for example 'vault:photos/2024'."@,
        Meaning::BadName => "A remote's name is not empty and holds no path separator."@,
        Meaning::Escapes => "Removal targets are relative to the vault root and may not contain '..' components."@,
        Meaning::Named { .. } => Seq::empty(),
    }
}

/// Whether `e` is the refusal of `spec` for the reason `m`.
pub open spec fn is_refusal(e: CliError, spec: Seq<char>, m: Meaning) -> bool {
    !(m is Named) && e.is(
        ExitCode::Usage,
        refusal_message(spec, m),
        Some(refusal_advice(m)),
    )
}

impl Target {
    /// What is written for it: `remote:path`.
    pub open spec fn text(self) -> Seq<char> {
        self.remote@ + ":"@ + self.path@
    }

    /// Whether it is a target that an argument can name.
    pub open spec fn well_formed(self) -> bool {
        &&& remote_name(self.remote@)
        &&& !self.remote@.contains(':')
        &&& !is_space(self.remote@[0])
        &&& canonical(self.path@)
    }

    /// Reads `REMOTE:PATH`.
    pub fn parse(spec: &str) -> (r: Result<Target>)
        ensures
            match r {
                Ok(t) => meaning(spec@) == (Meaning::Named { remote: t.remote@, path: t.path@ })
                    && t.well_formed(),
                Err(e) => is_refusal(e, spec@, meaning(spec@)),
            },
            path::ascii(spec@) ==> meaning(spec@) == meaning_with(
                spec@,
                clean_as_written(behind_colon(spec@)),
            ),
    {
        let s = text::trimmed(spec);
        let colon = text::find(s.as_slice(), ':');
        let rest = if colon == s.len() {
            String::new()
        } else {
            text::string_of(s.as_slice(), colon + 1, s.len())
        };
        proof {
            assert(rest@ =~= behind_colon(spec@));
            if path::ascii(spec@) {
                text::lemma_leading_spaces_bound(spec@);
                let front = spec@.skip(text::leading_spaces(spec@) as int);
                text::lemma_trimmed_end_bound(front);
                assert(path::ascii(front));
                assert(path::ascii(trim(spec@)));
                assert(path::ascii(rest@));
            }
        }
        Target::named(spec, path::clean_logical(rest.as_str()))
    }

    /// Reads `REMOTE:PATH`, where the canonical spelling of what stands behind the colon is
    /// known; there is none for a path that climbs out of the remote.
    pub fn named(spec: &str, path: Option<String>) -> (r: Result<Target>)
        ensures
            match r {
                Ok(t) => {
                    &&& meaning_with(spec@, text::view_option(path)) == (Meaning::Named {
                        remote: t.remote@,
                        path: t.path@,
                    })
                    &&& canonical(t.path@) ==> t.well_formed()
                },
                Err(e) => is_refusal(e, spec@, meaning_with(spec@, text::view_option(path))),
            },
    {
        let s = text::trimmed(spec);
        if s.len() == 0 {
            return Err(
                CliError::advice(
                    "no target given",
                    "Name what to remove, for example 'vault:photos/2024'.",
                ),
            );
        }
        let whole = text::string_of(s.as_slice(), 0, s.len());
        proof {
            assert(s@.subrange(0, s@.len() as int) =~= s@);
        }
        if remote::looks_local(s.as_slice()) {
            return Err(
                CliError::usage(
                    text::cat3("'", whole.as_str(), "' is a local path, not a remote"),
                ).with_hint(
                    "The removal commands operate on a remote, written REMOTE:PATH. Use your operating system's own tools to remove local files.".to_owned(),
                ),
            );
        }
        let colon = text::find(s.as_slice(), ':');
        if colon == s.len() {
            return Err(
                CliError::usage(
                    text::cat3("'", whole.as_str(), "' is not a remote specification"),
                ).with_hint(
                    "Write the target as REMOTE:PATH, for example 'vault:photos/2024'.".to_owned(),
                ),
            );
        }
        let remote = text::string_of(s.as_slice(), 0, colon);
        let name = text::chars_of(remote.as_str());
        proof {
            assert(s@.subrange(0, colon as int) =~= s@.take(colon as int));
            text::lemma_first_of(s@, ':');
            text::lemma_trim_ends(spec@);
            if remote@.contains(':') {
                let i = choose|i: int| 0 <= i < remote@.len() && remote@[i] == ':';
                assert(s@[i] == ':');
            }
        }
        if !remote::names_a_remote(name.as_slice()) {
            return Err(
                CliError::usage(
                    text::cat3("'", remote.as_str(), "' is not the name of a remote"),
                ).with_hint("A remote's name is not empty and holds no path separator.".to_owned()),
            );
        }
        match path {
            None => {
                let rest = text::string_of(s.as_slice(), colon + 1, s.len());
                proof {
                    assert(s@.subrange(colon + 1, s@.len() as int) =~= s@.skip(colon + 1));
                }
                Err(
                    CliError::usage(
                        text::cat3("'", rest.as_str(), "' escapes the remote with '..'"),
                    ).with_hint(
                        "Removal targets are relative to the vault root and may not contain '..' components.".to_owned(),
                    ),
                )
            },
            Some(path) => Ok(Target { remote, path }),
        }
    }

    /// Whether this is the whole remote.
    pub fn is_root(&self) -> (r: bool)
        ensures
            r == (self.path@.len() == 0),
    {
        self.path.as_str().is_empty()
    }

    /// The target as it is written.
    pub fn to_text(&self) -> (s: String)
        ensures
            s@ == self.text(),
    {
        text::cat3(self.remote.as_str(), ":", self.path.as_str())
    }

    /// The target as seen from inside its store: for a provider's own name the first
    /// component is the bucket, which is where the store is and no part of any key.
    pub fn scoped_to(&self, config: &Config) -> (r: Result<Target>)
        ensures
            match r {
                Ok(t) => t.remote@ == self.remote@ && scope(*config, *self) == Scope::Prefix(
                    t.path@,
                ),
                Err(e) => match scope(*config, *self) {
                    Scope::Prefix(_) => false,
                    Scope::NoBucket => e.is(
                        ExitCode::Usage,
                        "'"@ + self.remote@ + "' needs a bucket name"@,
                        Some("Write the bucket behind the colon, for example 'b2:bucket/path'."@),
                    ),
                    Scope::Unknown => e.is(
                        ExitCode::FatalError,
                        "no remote is called '"@ + self.remote@ + "'"@,
                        Some("List the configured remotes with `dctl config list`."@),
                    ),
                },
            },
    {
        if config.get(self.remote.as_str()).is_some() {
            return Ok(Target { remote: self.remote.clone(), path: self.path.clone() });
        }
        if !is_provider(self.remote.as_str()) {
            return Err(
                CliError::new(
                    ExitCode::FatalError,
                    text::cat3("no remote is called '", self.remote.as_str(), "'"),
                ).with_hint("List the configured remotes with `dctl config list`.".to_owned()),
            );
        }
        let p = text::chars_of(self.path.as_str());
        if p.len() == 0 {
            return Err(
                CliError::usage(
                    text::cat3("'", self.remote.as_str(), "' needs a bucket name"),
                ).with_hint(
                    "Write the bucket behind the colon, for example 'b2:bucket/path'.".to_owned(),
                ),
            );
        }
        let i = text::find(p.as_slice(), '/');
        if i == p.len() {
            return Ok(Target { remote: self.remote.clone(), path: String::new() });
        }
        proof {
            text::lemma_first_of(p@, '/');
            assert(p@.subrange(i + 1, p@.len() as int) =~= p@.skip(i + 1));
        }
        Ok(
            Target {
                remote: self.remote.clone(),
                path: text::string_of(p.as_slice(), i + 1, p.len()),
            },
        )
    }
}

/// Whether `name` is how an object store's provider is addressed without configuration.
pub open spec fn provider(name: Seq<char>) -> bool {
    name == "b2"@ || name == "s3"@ || name == "r2"@
}

fn is_provider(name: &str) -> (r: bool)
    ensures
        r == provider(name@),
{
    text::same(name, "b2") || text::same(name, "s3") || text::same(name, "r2")
}

/// Where a target lies inside its store.
pub enum Scope {
    Prefix(Seq<char>),
    NoBucket,
    Unknown,
}

pub open spec fn scope(config: Config, target: Target) -> Scope {
    let p = target.path@;
    if config.lookup(target.remote@) is Some {
        Scope::Prefix(p)
    } else if !provider(target.remote@) {
        Scope::Unknown
    } else if p.len() == 0 {
        Scope::NoBucket
    } else if first_of(p, '/') == p.len() {
        Scope::Prefix(Seq::empty())
    } else {
        Scope::Prefix(p.skip(first_of(p, '/') + 1))
    }
}

/// What is written for a target names that target again. The one exception is a path that
/// ends in white space, which the end of an argument does not keep.
pub proof fn the_written_form_names_the_target(t: Target)
    requires
        t.well_formed(),
        t.path@.len() > 0 ==> !is_space(t.path@.last()),
    ensures
        meaning(t.text()) == (Meaning::Named { remote: t.remote@, path: t.path@ }),
{
    reveal_strlit(":");
    let s = t.text();
    assert(s =~= t.remote@.push(':') + t.path@);
    assert(s[0] == t.remote@[0]);
    text::lemma_trim_of_trimmed(s);
    assert(s[t.remote@.len() as int] == ':');
    assert forall|i: int| 0 <= i < t.remote@.len() implies s[i] == t.remote@[i] && !is_slash(
        s[i],
    ) by {}
    if s.len() >= 3 && s[1] == ':' {
        if t.remote@.len() > 1 {
            assert(t.remote@.contains(t.remote@[1]));
        }
        assert(s[2] == t.path@[0]);
        path::lemma_canonical_has_no_backslash(t.path@, 0);
    }
    if s == seq!['.'] || s == seq!['.', '.'] {
        assert(s.contains(s[t.remote@.len() as int]));
    }
    assert(!local_spelling(s));
    text::lemma_first_of_concat(t.remote@, t.path@, ':');
    assert(s.take(t.remote@.len() as int) =~= t.remote@);
    assert(s.skip(t.remote@.len() as int + 1) =~= t.path@);
    path::canonical_paths_are_fixed(t.path@);
}

/// A configured remote is addressed as written. A provider's own name takes the first component
/// for the bucket: what stands behind it is the path inside, and without a bucket there is no
/// target. Any other name is unknown.
pub proof fn a_bucket_is_no_part_of_a_key(
    config: Config,
    target: Target,
    bucket: Seq<char>,
    rest: Seq<char>,
)
    ensures
        config.lookup(target.remote@) is Some ==> scope(config, target) == Scope::Prefix(
            target.path@,
        ),
        ({
            let direct = config.lookup(target.remote@) is None && (target.remote@ == "b2"@
                || target.remote@ == "s3"@ || target.remote@ == "r2"@);
            &&& direct && target.path@.len() == 0 ==> scope(config, target) == Scope::NoBucket
            &&& direct && bucket.len() > 0 && !bucket.contains('/') && target.path@ == bucket
                ==> scope(config, target) == Scope::Prefix(Seq::<char>::empty())
            &&& direct && !bucket.contains('/') && target.path@ == bucket.push('/') + rest ==> scope(
                config,
                target,
            ) == Scope::Prefix(rest)
            &&& config.lookup(target.remote@) is None && !direct ==> scope(config, target)
                == Scope::Unknown
        }),
{
    let p = target.path@;
    text::lemma_first_of(p, '/');
    if !bucket.contains('/') && p == bucket {
        if first_of(p, '/') < p.len() {
            assert(bucket.contains(p[first_of(p, '/')]));
        }
    }
    if !bucket.contains('/') && p == bucket.push('/') + rest {
        text::lemma_first_of_concat(bucket, rest, '/');
        assert(p.skip(bucket.len() as int + 1) =~= rest);
    }
}

/// Nothing, a local path, a text without a colon and a name that cannot be a remote's are refused,
/// each as what it is; a path that climbs is refused too; and what is left names the part before
/// the first colon.
pub proof fn an_argument_is_refused_for_what_it_is(spec: Seq<char>, path: Option<Seq<char>>)
    ensures
        ({
            let s = trim(spec);
            let m = meaning_with(spec, path);
            &&& s.len() == 0 <==> m is Empty
            &&& s.len() > 0 && local_spelling(s) <==> m is LocalPath
            &&& m is NoRemote ==> !s.contains(':')
            &&& s.len() > 0 && !local_spelling(s) && !s.contains(':') ==> m is NoRemote
            &&& m matches Meaning::Named { remote, path: p } ==> remote_name(remote)
                && !remote.contains(':') && remote.push(':').is_prefix_of(s) && path == Some(p)
            &&& m is Escapes ==> path is None
        }),
{
    let s = trim(spec);
    let colon = first_of(s, ':');
    text::lemma_first_of(s, ':');
    if s.contains(':') {
        let i = choose|i: int| 0 <= i < s.len() && s[i] == ':';
        assert(colon <= i) by {
            if colon > i {
                assert(s[i] != ':');
            }
        }
    } else if colon < s.len() {
        assert(s.contains(s[colon]));
    }
    if colon < s.len() {
        let name = s.take(colon);
        assert(name.push(':') =~= s.subrange(0, colon + 1));
        if name.contains(':') {
            let i = choose|i: int| 0 <= i < name.len() && name[i] == ':';
            assert(s[i] == ':');
        }
    }
}

/// A target is written as its remote, a colon and its path.
pub proof fn a_target_is_written_with_a_colon(t: Target)
    ensures
        t.text() == t.remote@ + ":"@ + t.path@,
        t.well_formed() ==> remote_name(t.remote@) && !t.remote@.contains(':') && canonical(
            t.path@,
        ),
{
}

/// A refusal of an argument is always a mistake in the request, and says what is wrong with it.
pub proof fn a_refused_argument_is_told_why(e: CliError, spec: Seq<char>, m: Meaning)
    requires
        is_refusal(e, spec, m),
    ensures
        e.code == ExitCode::Usage,
        m is Empty ==> e.message@ == "no target given"@,
        m is LocalPath ==> e.message@ == "'"@ + trim(spec) + "' is a local path, not a remote"@,
        m is NoRemote ==> e.message@ == "'"@ + trim(spec) + "' is not a remote specification"@,
        m is Escapes ==> e.message@ == "'"@ + trim(spec).skip(first_of(trim(spec), ':') + 1)
            + "' escapes the remote with '..'"@,
        !(m is Named),
{
}

} // verus!
