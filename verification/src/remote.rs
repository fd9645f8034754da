//! Remotes: how they are written on the command line, and what the configuration says of them.
use vstd::prelude::*;
use vstd::string::StringExecFns;

use crate::error::{CliError, ExitCode, Result};
use crate::path;
use crate::path::under;
use crate::text;
use crate::text::{first_of, trim};

verus! {

/// Whether a character separates path components on any platform.
pub open spec fn is_slash(c: char) -> bool {
    c == '/' || c == '\\'
}

/// Whether `s` reads as a local path: it starts with a separator, is or starts with a dot
/// component, or starts with a drive letter and a backslash.
pub open spec fn local_spelling(s: Seq<char>) -> bool {
    ||| s.len() >= 1 && is_slash(s[0])
    ||| s == seq!['.']
    ||| s == seq!['.', '.']
    ||| s.len() >= 2 && s[0] == '.' && is_slash(s[1])
    ||| s.len() >= 3 && s[0] == '.' && s[1] == '.' && is_slash(s[2])
    ||| s.len() >= 3 && is_letter(s[0]) && s[1] == ':' && s[2] == '\\'
}

/// Whether a character is an ASCII letter.
pub open spec fn is_letter(c: char) -> bool {
    ('a' as int <= c as int <= 'z' as int) || ('A' as int <= c as int <= 'Z' as int)
}

/// Whether `s` can be the name of a remote: it is not empty and holds no separator.
pub open spec fn remote_name(s: Seq<char>) -> bool {
    s.len() > 0 && forall|i: int| 0 <= i < s.len() ==> !is_slash(#[trigger] s[i])
}

fn letter(c: char) -> (r: bool)
    ensures
        r == is_letter(c),
{
    let n: u32 = c as u32;
    (97 <= n && n <= 122) || (65 <= n && n <= 90)
}

fn slash(c: char) -> (r: bool)
    ensures
        r == is_slash(c),
{
    c == '/' || c == '\\'
}

/// Whether an argument reads as a local path.
pub fn looks_local(s: &[char]) -> (r: bool)
    ensures
        r == local_spelling(s@),
{
    let n = s.len();
    proof {
        if n == 1 && s@[0] == '.' {
            assert(s@ =~= seq!['.']);
        }
        if n == 2 && s@[0] == '.' && s@[1] == '.' {
            assert(s@ =~= seq!['.', '.']);
        }
    }
    (n >= 1 && slash(s[0])) || (n == 1 && s[0] == '.') || (n == 2 && s[0] == '.' && s[1] == '.')
        || (n >= 2 && s[0] == '.' && slash(s[1])) || (n >= 3 && s[0] == '.' && s[1] == '.' && slash(
        s[2],
    )) || (n >= 3 && letter(s[0]) && s[1] == ':' && s[2] == '\\')
}

/// Whether a text can be the name of a remote.
pub fn names_a_remote(s: &[char]) -> (r: bool)
    ensures
        r == remote_name(s@),
{
    let mut i: usize = 0;
    while i < s.len()
        invariant
            i <= s.len(),
            forall|j: int| 0 <= j < i ==> !is_slash(#[trigger] s@[j]),
        decreases s.len() - i,
    {
        if slash(s[i]) {
            return false;
        }
        i = i + 1;
    }
    s.len() > 0
}

pub const LOCAL_PREFIX: &'static str = "local";

/// What an argument names.
pub enum Naming {
    Nothing,
    Path(Seq<char>),
    Remote { remote: Seq<char>, path: Seq<char> },
}

/// What an argument names.
pub open spec fn naming(spec: Seq<char>) -> Naming {
    let s = trim(spec);
    let colon = first_of(s, ':');
    if s.len() == 0 {
        Naming::Nothing
    } else if local_spelling(s) || colon == s.len() {
        Naming::Path(s)
    } else if s.take(colon) == LOCAL_PREFIX@ {
        Naming::Path(s.skip(colon + 1))
    } else if !remote_name(s.take(colon)) {
        Naming::Nothing
    } else {
        Naming::Remote { remote: s.take(colon), path: s.skip(colon + 1) }
    }
}

fn nameless(spec: &str) -> (e: CliError)
    ensures
        e.is(
            ExitCode::Usage,
            "'"@ + spec@ + "' names neither a remote nor a path"@,
            Some("Write REMOTE:PATH, or a local path."@),
        ),
{
    CliError::usage(text::cat3("'", spec, "' names neither a remote nor a path")).with_hint(
        "Write REMOTE:PATH, or a local path.".to_owned(),
    )
}

/// An argument, told apart: something on a remote, or a local path.
#[derive(Debug, PartialEq, Eq)]
pub enum RemoteSpec {
    Named { remote: String, path: String },
    Local(String),
}

impl RemoteSpec {
    /// What is written for it.
    pub open spec fn text(self) -> Seq<char> {
        match self {
            RemoteSpec::Named { remote, path } => remote@ + ":"@ + path@,
            RemoteSpec::Local(path) => path@,
        }
    }

    /// Reads an argument that may name either. What has no colon, or is spelled like a path,
    /// is a local path, and so is what stands behind `local:`.
    pub fn parse(spec: &str) -> (r: Result<RemoteSpec>)
        ensures
            match r {
                Ok(RemoteSpec::Named { remote, path }) => naming(spec@) == (Naming::Remote {
                    remote: remote@,
                    path: path@,
                }),
                Ok(RemoteSpec::Local(path)) => naming(spec@) == Naming::Path(path@),
                Err(e) => naming(spec@) == Naming::Nothing && e.is(
                    ExitCode::Usage,
                    "'"@ + spec@ + "' names neither a remote nor a path"@,
                    Some("Write REMOTE:PATH, or a local path."@),
                ),
            },
    {
        let s = text::trimmed(spec);
        if s.len() == 0 {
            return Err(nameless(spec));
        }
        let colon = text::find(s.as_slice(), ':');
        proof {
            text::lemma_first_of(s@, ':');
            assert(s@.subrange(0, s@.len() as int) =~= s@);
        }
        if looks_local(s.as_slice()) || colon == s.len() {
            return Ok(RemoteSpec::Local(text::string_of(s.as_slice(), 0, s.len())));
        }
        let remote = text::string_of(s.as_slice(), 0, colon);
        let path = text::string_of(s.as_slice(), colon + 1, s.len());
        proof {
            assert(s@.subrange(0, colon as int) =~= s@.take(colon as int));
            assert(s@.subrange(colon + 1, s@.len() as int) =~= s@.skip(colon + 1));
        }
        if text::same(remote.as_str(), LOCAL_PREFIX) {
            return Ok(RemoteSpec::Local(path));
        }
        let name = text::chars_of(remote.as_str());
        if !names_a_remote(name.as_slice()) {
            return Err(nameless(spec));
        }
        Ok(RemoteSpec::Named { remote, path })
    }

    pub fn to_text(&self) -> (s: String)
        ensures
            s@ == self.text(),
    {
        match self {
            RemoteSpec::Named { remote, path } => text::cat3(remote.as_str(), ":", path.as_str()),
            RemoteSpec::Local(path) => path.clone(),
        }
    }
}

/// A directory of this machine.
#[derive(Debug)]
pub struct LocalDef {
    pub path: String,
    pub require_vault: bool,
}

/// A bucket of an object store.
#[derive(Debug)]
pub struct BucketDef {
    pub bucket: String,
    pub endpoint: Option<String>,
    pub require_vault: bool,
}

/// A sealed view of another remote.
#[derive(Debug)]
pub struct VaultDef {
    pub base: String,
}

/// What the configuration says of one remote.
#[derive(Debug)]
pub enum RemoteDef {
    Local(LocalDef),
    B2(BucketDef),
    S3(BucketDef),
    Vault(VaultDef),
}

impl RemoteDef {
    /// Whether this is a sealed view.
    pub fn is_vault(&self) -> (r: bool)
        ensures
            r == (self is Vault),
    {
        match self {
            RemoteDef::Vault(_) => true,
            _ => false,
        }
    }

    /// The remote that a sealed view stores into.
    pub open spec fn base_text(self) -> Option<Seq<char>> {
        match self {
            RemoteDef::Vault(v) => Some(v.base@),
            _ => None,
        }
    }

    pub fn base(&self) -> (r: Option<&str>)
        ensures
            match r {
                Some(b) => self.base_text() == Some(b@),
                None => self.base_text() is None,
            },
    {
        match self {
            RemoteDef::Vault(v) => Some(v.base.as_str()),
            _ => None,
        }
    }

    /// Whether the configuration declares this remote a vault's object store.
    pub open spec fn declares_store(self) -> bool {
        match self {
            RemoteDef::Local(d) => d.require_vault,
            RemoteDef::B2(d) => d.require_vault,
            RemoteDef::S3(d) => d.require_vault,
            RemoteDef::Vault(_) => false,
        }
    }

    pub fn require_vault(&self) -> (r: bool)
        ensures
            r == self.declares_store(),
    {
        match self {
            RemoteDef::Local(d) => d.require_vault,
            RemoteDef::B2(d) => d.require_vault,
            RemoteDef::S3(d) => d.require_vault,
            RemoteDef::Vault(_) => false,
        }
    }

    /// The word that the configuration uses for this kind of remote.
    pub open spec fn kind_text(self) -> Seq<char> {
        match self {
            RemoteDef::Local(_) => "local"@,
            RemoteDef::B2(_) => "b2"@,
            RemoteDef::S3(_) => "s3"@,
            RemoteDef::Vault(_) => "vault"@,
        }
    }

    pub fn kind_name(&self) -> (r: &'static str)
        ensures
            r@ == self.kind_text(),
    {
        match self {
            RemoteDef::Local(_) => "local",
            RemoteDef::B2(_) => "b2",
            RemoteDef::S3(_) => "s3",
            RemoteDef::Vault(_) => "vault",
        }
    }
}

/// The place of `key` among the first `n` names, or -1.
pub open spec fn position(names: Seq<Seq<char>>, key: Seq<char>, n: int) -> int
    decreases n,
{
    if n <= 0 {
        -1
    } else if names[n - 1] == key {
        n - 1
    } else {
        position(names, key, n - 1)
    }
}

/// One configured remote.
#[derive(Debug)]
pub struct Named {
    pub name: String,
    pub def: RemoteDef,
}

/// The names of configured remotes.
pub open spec fn names(entries: Seq<Named>) -> Seq<Seq<char>> {
    entries.map_values(|e: Named| e.name@)
}

/// The configured remotes.
#[derive(Debug)]
pub struct Config {
    entries: Vec<Named>,
}

impl Default for Config {
    fn default() -> (c: Config)
        ensures
            c.size() == 0,
            forall|name: Seq<char>| #[trigger] c.lookup(name) is None,
    {
        Config { entries: Vec::new() }
    }
}

impl Config {
    /// How many remotes have been configured.
    pub closed spec fn size(self) -> nat {
        self.entries@.len()
    }

    /// What the configuration says of the remote called `name`.
    pub closed spec fn lookup(self, name: Seq<char>) -> Option<RemoteDef> {
        let i = position(names(self.entries@), name, self.entries@.len() as int);
        if i < 0 {
            None
        } else {
            Some(self.entries@[i].def)
        }
    }

    /// Adds a remote; one of that name that is already there is replaced.
    pub fn insert(&mut self, name: &str, def: RemoteDef)
        ensures
            final(self).size() == old(self).size() + (if old(self).lookup(name@) is Some {
                0int
            } else {
                1
            }),
            forall|n: Seq<char>| #[trigger]
                final(self).lookup(n) == (if n == name@ {
                    Some(def)
                } else {
                    old(self).lookup(n)
                }),
    {
        let ghost before = names(self.entries@);
        let mut i: usize = self.entries.len();
        while i > 0
            invariant
                i <= self.entries@.len(),
                *self == *old(self),
                before == names(self.entries@),
                position(before, name@, before.len() as int) == position(before, name@, i as int),
            decreases i,
        {
            i = i - 1;
            assert(before[i as int] == self.entries@[i as int].name@);
            if text::same(self.entries[i].name.as_str(), name) {
                self.entries.set(i, Named { name: name.to_owned(), def });
                proof {
                    assert(names(self.entries@) =~= before);
                    assert forall|n: Seq<char>| #[trigger]
                        self.lookup(n) == (if n == name@ {
                            Some(def)
                        } else {
                            old(self).lookup(n)
                        }) by {
                        lemma_position_names(before, n, before.len() as int);
                    }
                }
                return;
            }
        }
        self.entries.push(Named { name: name.to_owned(), def });
        proof {
            let after = names(self.entries@);
            assert(after =~= before.push(name@));
            assert forall|n: Seq<char>| #[trigger]
                self.lookup(n) == (if n == name@ {
                    Some(def)
                } else {
                    old(self).lookup(n)
                }) by {
                lemma_position_push(before, name@, n, before.len() as int);
                lemma_position_bound(before, n, before.len() as int);
            }
        }
    }

    /// What the configuration says of the remote called `name`.
    pub fn get(&self, name: &str) -> (r: Option<&RemoteDef>)
        ensures
            match r {
                Some(def) => self.lookup(name@) == Some(*def),
                None => self.lookup(name@) is None,
            },
    {
        let ghost all = names(self.entries@);
        let mut i: usize = self.entries.len();
        while i > 0
            invariant
                i <= self.entries@.len(),
                all == names(self.entries@),
                position(all, name@, self.entries@.len() as int) == position(all, name@, i as int),
            decreases i,
        {
            i = i - 1;
            assert(all[i as int] == self.entries@[i as int].name@);
            if text::same(self.entries[i].name.as_str(), name) {
                return Some(&self.entries[i].def);
            }
        }
        None
    }

    /// How many remotes have been configured.
    pub fn len(&self) -> (n: usize)
        ensures
            n == self.size(),
    {
        self.entries.len()
    }
}

/// A place without the separators at its end.
pub open spec fn bare_place(p: Seq<char>) -> Seq<char>
    decreases p.len(),
{
    if p.len() > 0 && p.last() == '/' {
        bare_place(p.drop_last())
    } else {
        p
    }
}

fn bare(p: &str) -> (r: String)
    ensures
        r@ == bare_place(p@),
{
    let v = text::chars_of(p);
    let mut n: usize = v.len();
    proof {
        assert(v@.take(v@.len() as int) =~= v@);
    }
    while n > 0 && v[n - 1] == '/'
        invariant
            n <= v@.len(),
            v@ == p@,
            bare_place(p@) == bare_place(v@.take(n as int)),
        decreases n,
    {
        proof {
            assert(v@.take(n as int).drop_last() =~= v@.take(n - 1));
        }
        n = n - 1;
    }
    proof {
        assert(v@.subrange(0, n as int) =~= v@.take(n as int));
    }
    text::string_of(v.as_slice(), 0, n)
}

impl Config {
    /// Whether the remote called `name` is a directory that is declared a vault's own store,
    /// and `p` lies in it.
    pub open spec fn claims_as(self, name: Seq<char>, p: Seq<char>) -> bool {
        self.lookup(name) matches Some(RemoteDef::Local(d)) && d.require_vault && under(
            bare_place(d.path@),
            p,
        )
    }

    /// Whether `p` lies in a directory that is declared a vault's own store.
    pub open spec fn claims(self, p: Seq<char>) -> bool {
        exists|name: Seq<char>| #[trigger] self.claims_as(name, p)
    }

    /// Whether a local path lies in a directory that is declared a vault's own store.
    pub fn is_claimed(&self, p: &str) -> (r: bool)
        ensures
            r == self.claims(p@),
    {
        let ghost all = names(self.entries@);
        let mut i: usize = 0;
        while i < self.entries.len()
            invariant
                i <= self.entries@.len(),
                all == names(self.entries@),
                forall|j: int| 0 <= j < i ==> !self.claims_as(#[trigger] all[j], p@),
            decreases self.entries@.len() - i,
        {
            let name = self.entries[i].name.as_str();
            assert(all[i as int] == name@);
            if let Some(RemoteDef::Local(d)) = self.get(name) {
                if d.require_vault {
                    let root = bare(d.path.as_str());
                    if path::is_under(root.as_str(), p) {
                        assert(self.claims_as(name@, p@));
                        return true;
                    }
                }
            }
            i = i + 1;
        }
        proof {
            assert forall|name: Seq<char>| !#[trigger] self.claims_as(name, p@) by {
                lemma_position_names(all, name, all.len() as int);
                if self.claims_as(name, p@) {
                    let k = position(all, name, all.len() as int);
                    assert(all[k] == name);
                }
            }
        }
        false
    }
}

proof fn lemma_position_push(s: Seq<Seq<char>>, extra: Seq<char>, key: Seq<char>, n: int)
    requires
        n <= s.len(),
    ensures
        position(s.push(extra), key, n) == position(s, key, n),
    decreases n,
{
    if n > 0 {
        assert(s.push(extra)[n - 1] == s[n - 1]);
        lemma_position_push(s, extra, key, n - 1);
    }
}

proof fn lemma_position_names(s: Seq<Seq<char>>, key: Seq<char>, n: int)
    requires
        n <= s.len(),
    ensures
        position(s, key, n) >= 0 ==> position(s, key, n) < n && s[position(s, key, n)] == key,
        position(s, key, n) >= -1,
    decreases n,
{
    if n > 0 {
        lemma_position_names(s, key, n - 1);
    }
}

proof fn lemma_position_bound(s: Seq<Seq<char>>, key: Seq<char>, n: int)
    ensures
        n > 0 ==> position(s, key, n) < n,
        n <= 0 ==> position(s, key, n) == -1,
    decreases n,
{
    if n > 0 {
        lemma_position_bound(s, key, n - 1);
    }
}

/// The remote at the end of a chain of sealed views, following at most `hops` of them. There
/// is none where a name is not configured, or where the chain is longer.
pub open spec fn chain_end(config: Config, name: Seq<char>, hops: nat) -> Option<Seq<char>>
    decreases hops,
{
    match config.lookup(name) {
        None => None,
        Some(RemoteDef::Vault(v)) => if hops == 0 {
            None
        } else {
            chain_end(config, v.base@, (hops - 1) as nat)
        },
        Some(_) => Some(name),
    }
}

/// The remote that really holds the bytes of `remote`.
///
/// A chain that passes through more sealed views than there are remotes has come round to
/// where it was, so it is refused like one that ends at a name nobody configured.
pub fn vault_chain(config: &Config, remote: &str) -> (r: Result<String>)
    ensures
        match r {
            Ok(end) => chain_end(*config, remote@, config.size()) == Some(end@),
            Err(e) => chain_end(*config, remote@, config.size()) is None && is_broken_chain(
                e,
                remote@,
            ),
        },
{
    let mut name = remote.to_owned();
    let mut hops: usize = config.len();
    loop
        invariant
            chain_end(*config, remote@, config.size()) == chain_end(*config, name@, hops as nat),
        decreases hops,
    {
        let next: String = match config.get(name.as_str()) {
            None => {
                return Err(broken_chain(remote));
            },
            Some(RemoteDef::Vault(v)) => v.base.clone(),
            Some(_) => {
                return Ok(name);
            },
        };
        if hops == 0 {
            return Err(broken_chain(remote));
        }
        hops = hops - 1;
        name = next;
    }
}

/// Whether `e` says that the chain of `remote` ends nowhere.
pub open spec fn is_broken_chain(e: CliError, remote: Seq<char>) -> bool {
    e.is(
        ExitCode::FatalError,
        "the vault chain of '"@ + remote + "' does not end at a configured store"@,
        Some("Run `dctl config verify`, and correct the base of the vault."@),
    )
}

fn broken_chain(remote: &str) -> (e: CliError)
    ensures
        is_broken_chain(e, remote@),
{
    CliError::new(
        ExitCode::FatalError,
        text::cat3("the vault chain of '", remote, "' does not end at a configured store"),
    ).with_hint("Run `dctl config verify`, and correct the base of the vault.".to_owned())
}

/// A name and a path with a colon between them name that path on that remote. What stands behind
/// `local:` is a path of this machine, and so is what has no colon in it.
pub proof fn a_colon_names_a_remote(name: Seq<char>, p: Seq<char>)
    requires
        remote_name(name),
        !name.contains(':'),
        !text::is_space(name[0]),
        p.len() == 0 || !text::is_space(p.last()),
        !local_spelling(name.push(':') + p),
    ensures
        name != LOCAL_PREFIX@ ==> naming(name.push(':') + p) == (Naming::Remote {
            remote: name,
            path: p,
        }),
        name == LOCAL_PREFIX@ ==> naming(name.push(':') + p) == Naming::Path(p),
        !text::is_space(name.last()) ==> naming(name) == Naming::Path(name),
        naming(Seq::empty()) is Nothing,
{
    let s = name.push(':') + p;
    assert(s[0] == name[0]);
    assert(s[name.len() as int] == ':');
    if p.len() == 0 {
        assert(s.last() == ':');
    } else {
        assert(s.last() == p.last());
    }
    text::lemma_trim_of_trimmed(s);
    text::lemma_first_of_concat(name, p, ':');
    assert(s.take(name.len() as int) =~= name);
    assert(s.skip(name.len() as int + 1) =~= p);
    if !text::is_space(name.last()) {
        text::lemma_trim_of_trimmed(name);
        text::lemma_first_of(name, ':');
        if first_of(name, ':') < name.len() {
            assert(name.contains(name[first_of(name, ':')]));
        }
    }
    assert(trim(Seq::<char>::empty()) =~= Seq::<char>::empty());
}

/// What starts with a separator, with a dot and one, or with two dots and one is a local path,
/// and so are a dot and two dots alone and a drive with a backslash. A name that merely starts
/// with a dot, and a letter with a colon and anything else, are not.
pub proof fn a_local_path_is_known_by_its_start(s: Seq<char>)
    ensures
        s.len() > 0 && (s[0] == '/' || s[0] == '\\') ==> local_spelling(s),
        s == seq!['.'] || s == seq!['.', '.'] ==> local_spelling(s),
        s.len() > 1 && s[0] == '.' && (s[1] == '/' || s[1] == '\\') ==> local_spelling(s),
        s.len() > 2 && s[0] == '.' && s[1] == '.' && (s[2] == '/' || s[2] == '\\')
            ==> local_spelling(s),
        s.len() > 2 && is_letter(s[0]) && s[1] == ':' && s[2] == '\\' ==> local_spelling(s),
        s.len() > 1 && s[0] == '.' && s[1] != '.' && s[1] != '/' && s[1] != '\\' ==> !local_spelling(
            s,
        ),
        s.len() > 2 && is_letter(s[0]) && s[1] == ':' && s[2] != '\\' ==> !local_spelling(s),
        s.len() > 0 && s[0] != '.' && s[0] != '/' && s[0] != '\\' && !(s.len() > 2 && s[1] == ':'
            && s[2] == '\\') ==> !local_spelling(s),
{
    if s == seq!['.'] {
        assert(s[0] == '.');
    }
    if s == seq!['.', '.'] {
        assert(s[0] == '.' && s[1] == '.');
    }
}

/// The end of a chain is a configured remote that seals nothing. A remote that seals nothing is
/// its own end, and a vault's end is that of the remote that it stores into.
pub proof fn a_chain_ends_where_bytes_are_stored(config: Config, name: Seq<char>, hops: nat)
    ensures
        chain_end(config, name, hops) matches Some(end) ==> config.lookup(end) is Some && !(
        config.lookup(end) matches Some(RemoteDef::Vault(_))),
        config.lookup(name) is Some && !(config.lookup(name) matches Some(RemoteDef::Vault(_)))
            ==> chain_end(config, name, hops) == Some(name),
        config.lookup(name) is None ==> chain_end(config, name, hops) is None,
        config.lookup(name) matches Some(RemoteDef::Vault(v)) ==> (hops > 0 ==> chain_end(
            config,
            name,
            hops,
        ) == chain_end(config, v.base@, (hops - 1) as nat)),
        config.lookup(name) matches Some(RemoteDef::Vault(v)) && v.base@ == name ==> chain_end(
            config,
            name,
            hops,
        ) is None,
    decreases hops,
{
    if hops > 0 {
        if let Some(RemoteDef::Vault(v)) = config.lookup(name) {
            a_chain_ends_where_bytes_are_stored(config, v.base@, (hops - 1) as nat);
        }
    }
}

/// A store is claimed with everything in it, whether or not its directory is written with
/// separators at the end; a directory that was not declared a store claims nothing.
pub proof fn a_store_is_claimed_with_all_in_it(config: Config, name: Seq<char>, p: Seq<char>)
    ensures
        config.lookup(name) matches Some(RemoteDef::Local(d)) ==> (d.require_vault && d.path@.len()
            > 0 && d.path@.last() != '/' ==> config.claims(d.path@) && config.claims(
            d.path@.push('/') + p,
        )),
        config.lookup(name) matches Some(RemoteDef::Local(d)) && !d.require_vault
            ==> !config.claims_as(name, p),
        !(config.lookup(name) is Some) ==> !config.claims_as(name, p),
        config.lookup(name) matches Some(RemoteDef::B2(_)) ==> !config.claims_as(name, p),
        config.lookup(name) matches Some(RemoteDef::S3(_)) ==> !config.claims_as(name, p),
        config.lookup(name) matches Some(RemoteDef::Vault(_)) ==> !config.claims_as(name, p),
        p.len() > 0 && p.last() != '/' ==> bare_place(p) == p && bare_place(p.push('/')) == p,
{
    if p.len() > 0 && p.last() != '/' {
        assert(p.push('/').drop_last() =~= p);
    }
    if let Some(RemoteDef::Local(d)) = config.lookup(name) {
        if d.require_vault && d.path@.len() > 0 && d.path@.last() != '/' {
            let place = d.path@;
            assert(bare_place(place) == place);
            let q = place.push('/') + p;
            assert(place.push('/') =~= q.subrange(0, place.push('/').len() as int));
            assert(config.claims_as(name, place));
            assert(config.claims_as(name, q));
        }
    }
}

/// A remote is declared a vault's store exactly by its own flag, and a vault is never one.
pub proof fn a_flag_declares_a_store(def: RemoteDef)
    ensures
        def matches RemoteDef::Local(d) ==> (def.declares_store() <==> d.require_vault),
        def matches RemoteDef::B2(d) ==> (def.declares_store() <==> d.require_vault),
        def matches RemoteDef::S3(d) ==> (def.declares_store() <==> d.require_vault),
        def is Vault ==> !def.declares_store(),
        def.base_text() is Some <==> def is Vault,
        def matches RemoteDef::Vault(v) ==> def.base_text() == Some(v.base@),
{
}

/// What is written for a remote is its name, a colon and its path, and for a local path the path.
pub proof fn a_remote_is_written_with_a_colon(spec: RemoteSpec, def: RemoteDef)
    ensures
        spec matches RemoteSpec::Named { remote, path } ==> spec.text() == remote@ + ":"@ + path@,
        spec matches RemoteSpec::Local(path) ==> spec.text() == path@,
        def is Local ==> def.kind_text() == "local"@,
        def is B2 ==> def.kind_text() == "b2"@,
        def is S3 ==> def.kind_text() == "s3"@,
        def is Vault ==> def.kind_text() == "vault"@,
{
}

/// A vault whose chain leads nowhere is a mistake in the configuration, and the run cannot go on.
pub proof fn a_broken_chain_ends_the_run(e: CliError, remote: Seq<char>)
    requires
        is_broken_chain(e, remote),
    ensures
        e.code == ExitCode::FatalError,
        e.message@ == "the vault chain of '"@ + remote
            + "' does not end at a configured store"@,
        e.hint is Some,
{
}

/// A later entry of the same name hides an earlier one, and a name that no entry has is nowhere.
pub proof fn the_last_entry_counts(entries: Seq<Named>, key: Seq<char>, i: int)
    ensures
        ({
            let all = names(entries);
            let found = position(all, key, all.len() as int);
            &&& all.len() == entries.len()
            &&& 0 <= i < entries.len() ==> all[i] == entries[i].name@
            &&& -1 <= found < entries.len()
            &&& found >= 0 ==> entries[found].name@ == key
            &&& 0 <= i < entries.len() && entries[i].name@ == key ==> i <= found
        }),
{
    let all = names(entries);
    lemma_position_is_last(all, key, all.len() as int, i);
}

proof fn lemma_position_is_last(all: Seq<Seq<char>>, key: Seq<char>, n: int, i: int)
    requires
        0 <= n <= all.len(),
    ensures
        -1 <= position(all, key, n) < n || (n == 0 && position(all, key, n) == -1),
        position(all, key, n) >= 0 ==> all[position(all, key, n)] == key,
        0 <= i < n && all[i] == key ==> i <= position(all, key, n),
    decreases n,
{
    if n > 0 {
        lemma_position_is_last(all, key, n - 1, i);
    }
}

} // verus!
