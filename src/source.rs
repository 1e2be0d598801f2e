//! Canonical identity of a backup source: `user@host:path`.

use vstd::prelude::*;
use vstd::string::*;

verus! {

/// A backup source as reported by the backup tool.
#[derive(Clone, Debug)]
pub struct Source {
    pub host: String,
    pub user_name: String,
    pub path: String,
}

/// The abstract source: host, user name and path, as character sequences.
pub struct SourceModel {
    pub host: Seq<char>,
    pub user_name: Seq<char>,
    pub path: Seq<char>,
}

impl View for Source {
    type V = SourceModel;

    open spec fn view(&self) -> SourceModel {
        SourceModel { host: self.host@, user_name: self.user_name@, path: self.path@ }
    }
}

/// A source can be rendered unambiguously when its user name holds no `@`
/// and its host holds no `:`.
pub open spec fn renderable(s: SourceModel) -> bool {
    !s.user_name.contains('@') && !s.host.contains(':')
}

/// The canonical key of a source: `user@host:path`.
pub open spec fn source_key(s: SourceModel) -> Seq<char> {
    s.user_name + seq!['@'] + s.host + seq![':'] + s.path
}

/// Canonical string form of a [`Source`], used as the key of every per-source map.
#[derive(Clone, Debug, PartialEq, Eq, Hash)]
pub struct SourceStr(String);

impl View for SourceStr {
    type V = Seq<char>;

    closed spec fn view(&self) -> Seq<char> {
        self.0@
    }
}

impl SourceStr {
    /// Wraps an already rendered key.
    pub fn new(value: String) -> (r: Self)
        ensures
            r@ == value@,
    {
        SourceStr(value)
    }

    /// The key as text.
    pub fn as_str(&self) -> (r: &str)
        ensures
            r@ == self@,
    {
        self.0.as_str()
    }
}

/// Which field made a source ambiguous, and the character that did it.
#[derive(Clone, Debug)]
pub enum ErrorKind {
    InvalidUserName { user_name: String, invalid_char: char },
    InvalidHost { host: String, invalid_char: char },
}

/// A source that cannot be rendered without ambiguity, with the full record.
#[derive(Clone, Debug)]
pub struct Error {
    pub kind: ErrorKind,
    pub value_source: Source,
}

/// The error that rendering `s` reports: the user name is checked first.
pub open spec fn render_error_matches(s: SourceModel, e: Error) -> bool {
    &&& e.value_source@ == s
    &&& if s.user_name.contains('@') {
        &&& e.kind matches ErrorKind::InvalidUserName { user_name, invalid_char }
        &&& e.kind->InvalidUserName_user_name@ == s.user_name
        &&& e.kind->InvalidUserName_invalid_char == '@'
    } else {
        &&& s.host.contains(':')
        &&& e.kind matches ErrorKind::InvalidHost { host, invalid_char }
        &&& e.kind->InvalidHost_host@ == s.host
        &&& e.kind->InvalidHost_invalid_char == ':'
    }
}

impl Error {
    /// The offending user name, when the user name was rejected.
    pub fn invalid_user_name(&self) -> (r: Option<&str>)
        ensures
            match self.kind {
                ErrorKind::InvalidUserName { user_name, .. } => r matches Some(u) && u@ == user_name@,
                ErrorKind::InvalidHost { .. } => r is None,
            },
    {
        match &self.kind {
            ErrorKind::InvalidUserName { user_name, .. } => Some(user_name.as_str()),
            ErrorKind::InvalidHost { .. } => None,
        }
    }

    /// The offending host, when the host was rejected.
    pub fn invalid_host(&self) -> (r: Option<&str>)
        ensures
            match self.kind {
                ErrorKind::InvalidHost { host, .. } => r matches Some(h) && h@ == host@,
                ErrorKind::InvalidUserName { .. } => r is None,
            },
    {
        match &self.kind {
            ErrorKind::InvalidHost { host, .. } => Some(host.as_str()),
            ErrorKind::InvalidUserName { .. } => None,
        }
    }
}

/// Whether character `c` occurs in `s`.
fn contains_char(s: &str, c: char) -> (r: bool)
    ensures
        r == s@.contains(c),
{
    for x in it: s.chars()
        invariant
            it.seq() == s@,
            forall|i: int| 0 <= i < it.index() ==> s@[i] != c,
    {
        if x == c {
            assert(s@[it.index() as int] == c);
            return true;
        }
    }
    false
}

fn copy_source(s: &Source) -> (r: Source)
    ensures
        r@ == s@,
{
    Source { host: s.host.clone(), user_name: s.user_name.clone(), path: s.path.clone() }
}

impl Source {
    /// Renders the canonical key `user@host:path`, or reports the field that
    /// would make the key ambiguous.
    pub fn render(&self) -> (r: Result<SourceStr, Error>)
        ensures
            match r {
                Ok(key) => renderable(self@) && key@ == source_key(self@),
                Err(e) => !renderable(self@) && render_error_matches(self@, e),
            },
    {
        if contains_char(self.user_name.as_str(), '@') {
            let kind = ErrorKind::InvalidUserName {
                user_name: self.user_name.clone(),
                invalid_char: '@',
            };
            return Err(Error { kind, value_source: copy_source(self) });
        }
        if contains_char(self.host.as_str(), ':') {
            let kind = ErrorKind::InvalidHost { host: self.host.clone(), invalid_char: ':' };
            return Err(Error { kind, value_source: copy_source(self) });
        }
        let mut rendered = self.user_name.clone();
        proof {
            reveal_strlit("@");
            reveal_strlit(":");
        }
        rendered.append("@");
        rendered.append(self.host.as_str());
        rendered.append(":");
        rendered.append(self.path.as_str());
        assert(rendered@ =~= source_key(self@));
        Ok(SourceStr(rendered))
    }
}

/// Rendering is injective: two renderable sources with the same key are the
/// same source.
pub proof fn lemma_render_injective(a: SourceModel, b: SourceModel)
    requires
        renderable(a),
        renderable(b),
        source_key(a) == source_key(b),
    ensures
        a == b,
{
    let k = source_key(a);
    let ua: int = a.user_name.len() as int;
    let ub: int = b.user_name.len() as int;
    assert(k[ua] == '@');
    assert(source_key(b)[ub] == '@');
    if ua < ub {
        assert(b.user_name[ua] == k[ua]);
        assert(b.user_name.contains('@'));
    } else if ub < ua {
        assert(a.user_name[ub] == k[ub]);
        assert(a.user_name.contains('@'));
    }
    assert(ua == ub);
    assert(a.user_name =~= k.subrange(0, ua));
    assert(b.user_name =~= k.subrange(0, ub));
    let ha: int = a.host.len() as int;
    let hb: int = b.host.len() as int;
    let off: int = ua + 1;
    assert(k[off + ha] == ':');
    assert(source_key(b)[off + hb] == ':');
    if ha < hb {
        assert(b.host[ha] == k[off + ha]);
        assert(b.host.contains(':'));
    } else if hb < ha {
        assert(a.host[hb] == k[off + hb]);
        assert(a.host.contains(':'));
    }
    assert(ha == hb);
    assert(a.host =~= k.subrange(off, off + ha));
    assert(b.host =~= k.subrange(off, off + hb));
    assert(a.path =~= k.subrange(off + ha + 1, k.len() as int));
    assert(b.path =~= k.subrange(off + hb + 1, k.len() as int));
}

} // verus!
