//! `#include` resolution for shader sources.
//!
//! The resolver finds the first `#include <path>` directive and either
//! inlines the named file's text or, when that file was inlined before,
//! drops the directive. Reading files is left to the caller, which drives
//! the loop: ask for the next directive, resolve and read the path, hand
//! back the text.
use vstd::prelude::*;

verus! {

/// The include directive: `#include` and a path of word characters,
/// slashes and dots.
pub const INCLUDE_PATTERN: &'static str = "#include ([\\w/\\.]+)";

/// Length of `#include ` in bytes, before the path argument.
pub const INCLUDE_PREFIX_LEN: usize = 9;

/// The byte range of the leftmost match of `pattern` in `hay`, if the
/// pattern compiles and matches. It depends on the two arguments alone.
pub uninterp spec fn first_match(pattern: Seq<char>, hay: Seq<u8>) -> Option<(int, int)>;

/// Relies on `regex::bytes::Regex::new` and `Regex::find`: the start and
/// end offsets of the leftmost-first match, which lie within the haystack.
#[verifier::external_body]
fn find_first(pattern: &str, hay: &[u8]) -> (r: Option<(usize, usize)>)
    ensures
        match r {
            Some((s, e)) => first_match(pattern@, hay@) == Some((s as int, e as int)) && s <= e <= hay@.len(),
            None => first_match(pattern@, hay@) is None,
        },
{
    match regex::bytes::Regex::new(pattern) {
        Ok(re) => match re.find(hay) {
            Some(m) => Some((m.start(), m.end())),
            None => None,
        },
        Err(_) => None,
    }
}

/// Where the first directive of `src` stands, if any.
pub open spec fn directive(src: Seq<u8>) -> Option<(int, int)> {
    first_match(INCLUDE_PATTERN@, src)
}

/// The path argument of the directive at `[s, e)`.
pub open spec fn directive_arg(src: Seq<u8>, s: int, e: int) -> Seq<u8> {
    if s + INCLUDE_PREFIX_LEN <= e {
        src.subrange(s + INCLUDE_PREFIX_LEN, e)
    } else {
        Seq::empty()
    }
}

/// `src` with `[s, e)` replaced by `rep`.
pub open spec fn splice(src: Seq<u8>, s: int, e: int, rep: Seq<u8>) -> Seq<u8> {
    src.subrange(0, s) + rep + src.subrange(e, src.len() as int)
}

/// `src` with its first directive replaced by `rep` (unchanged without one).
pub open spec fn replace_directive(src: Seq<u8>, rep: Seq<u8>) -> Seq<u8> {
    match directive(src) {
        Some((s, e)) => splice(src, s, e, rep),
        None => src,
    }
}

/// Shader text being resolved, and the keys (resolved paths) of the files
/// inlined so far.
pub struct IncludeResolver {
    source: Vec<u8>,
    included: Vec<Vec<u8>>,
}

impl View for IncludeResolver {
    type V = (Seq<u8>, Seq<Seq<u8>>);

    closed spec fn view(&self) -> (Seq<u8>, Seq<Seq<u8>>) {
        (self.source@, self.included@.map_values(|k: Vec<u8>| k@))
    }
}

fn bytes_eq(a: &[u8], b: &[u8]) -> (r: bool)
    ensures
        r == (a@ == b@),
{
    if a.len() != b.len() {
        return false;
    }
    let mut i: usize = 0;
    while i < a.len()
        invariant
            a@.len() == b@.len(),
            i <= a@.len(),
            forall|j: int| 0 <= j < i ==> a@[j] == b@[j],
        decreases a@.len() - i,
    {
        if a[i] != b[i] {
            return false;
        }
        i += 1;
    }
    assert(a@ =~= b@);
    true
}

/// The bytes `[s, e)` of `src`.
fn copy_range(src: &[u8], s: usize, e: usize) -> (r: Vec<u8>)
    requires
        s <= e <= src@.len(),
    ensures
        r@ == src@.subrange(s as int, e as int),
{
    let mut out: Vec<u8> = Vec::new();
    let mut i = s;
    while i < e
        invariant
            s <= i <= e,
            e <= src@.len(),
            out@ == src@.subrange(s as int, i as int),
        decreases e - i,
    {
        out.push(src[i]);
        i += 1;
        assert(out@ =~= src@.subrange(s as int, i as int));
    }
    out
}

/// Appends `more` to `out`.
fn append_bytes(out: &mut Vec<u8>, more: &[u8])
    ensures
        final(out)@ == old(out)@ + more@,
{
    let mut i: usize = 0;
    while i < more.len()
        invariant
            i <= more@.len(),
            out@ == old(out)@ + more@.subrange(0, i as int),
        decreases more@.len() - i,
    {
        out.push(more[i]);
        i += 1;
        assert(out@ =~= old(out)@ + more@.subrange(0, i as int));
    }
    assert(more@.subrange(0, i as int) =~= more@);
}

impl IncludeResolver {
    pub fn new(source: Vec<u8>) -> (r: IncludeResolver)
        ensures
            r@ == (source@, Seq::<Seq<u8>>::empty()),
    {
        let r = IncludeResolver { source, included: Vec::new() };
        assert(r@.1 =~= Seq::<Seq<u8>>::empty());
        r
    }

    /// The path argument of the first directive, or `None` when no
    /// directive is left.
    pub fn next_include(&self) -> (r: Option<Vec<u8>>)
        ensures
            match directive(self@.0) {
                Some((s, e)) => r matches Some(a) && a@ == directive_arg(self@.0, s, e),
                None => r is None,
            },
    {
        match find_first(INCLUDE_PATTERN, self.source.as_slice()) {
            Some((s, e)) => {
                if e >= INCLUDE_PREFIX_LEN && s <= e - INCLUDE_PREFIX_LEN {
                    Some(copy_range(self.source.as_slice(), s + INCLUDE_PREFIX_LEN, e))
                } else {
                    Some(Vec::new())
                }
            },
            None => None,
        }
    }

    /// Whether the file under `key` was inlined already.
    pub fn is_included(&self, key: &[u8]) -> (r: bool)
        ensures
            r == self@.1.contains(key@),
    {
        let mut i: usize = 0;
        while i < self.included.len()
            invariant
                i <= self.included@.len(),
                forall|j: int| 0 <= j < i ==> self.included@[j]@ != key@,
            decreases self.included@.len() - i,
        {
            if bytes_eq(self.included[i].as_slice(), key) {
                assert(self@.1[i as int] == key@);
                return true;
            }
            i += 1;
        }
        assert forall|j: int| 0 <= j < self@.1.len() implies self@.1[j] != key@ by {
            assert(self@.1[j] == self.included@[j]@);
        }
        false
    }

    /// Replaces the first directive of the source with `rep`.
    fn replace_first(&mut self, rep: &[u8])
        ensures
            final(self)@ == (replace_directive(old(self)@.0, rep@), old(self)@.1),
    {
        match find_first(INCLUDE_PATTERN, self.source.as_slice()) {
            Some((s, e)) => {
                let mut out = copy_range(self.source.as_slice(), 0, s);
                append_bytes(&mut out, rep);
                let tail = copy_range(self.source.as_slice(), e, self.source.len());
                append_bytes(&mut out, tail.as_slice());
                self.source = out;
            },
            None => {},
        }
    }

    /// Drops the first directive: its file was inlined before.
    pub fn skip_directive(&mut self)
        ensures
            final(self)@ == (replace_directive(old(self)@.0, Seq::empty()), old(self)@.1),
    {
        let empty: Vec<u8> = Vec::new();
        self.replace_first(empty.as_slice());
    }

    /// Inlines `contents`, the text of the file under `key`, in place of
    /// the first directive, and records `key`.
    pub fn inline_directive(&mut self, key: Vec<u8>, contents: &[u8])
        ensures
            final(self)@ == (replace_directive(old(self)@.0, contents@), old(self)@.1.push(key@)),
    {
        self.replace_first(contents);
        let ghost before = self.included@;
        self.included.push(key);
        assert(self@.1 =~= old(self)@.1.push(key@)) by {
            assert(self.included@ == before.push(key));
        }
    }

    /// The resolved text.
    pub fn into_source(self) -> (r: Vec<u8>)
        ensures
            r@ == self@.0,
    {
        self.source
    }
}

} // verus!
