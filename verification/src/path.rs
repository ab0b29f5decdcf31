//! Unix paths held as plain sequences, and `join` with the semantics of
//! `PathBuf::push` on Unix.

use vstd::prelude::*;
use vstd::string::*;

verus! {

/// Joining `component` onto `base` with separator `sep`, as `PathBuf::push`
/// does on Unix: an absolute component replaces the base; otherwise a single
/// separator is inserted unless the base is empty or already ends in one.
pub open spec fn path_join<T>(base: Seq<T>, component: Seq<T>, sep: T) -> Seq<T> {
    if component.len() > 0 && component[0] == sep {
        component
    } else if base.len() == 0 || base.last() == sep {
        base + component
    } else {
        base.push(sep) + component
    }
}

/// `path_join` over characters, with `/` as separator.
pub open spec fn join_chars(base: Seq<char>, component: Seq<char>) -> Seq<char> {
    path_join(base, component, '/')
}

/// `path_join` over raw bytes, with the byte of `/` as separator.
pub open spec fn join_bytes(base: Seq<u8>, component: Seq<u8>) -> Seq<u8> {
    path_join(base, component, 0x2fu8)
}

/// A path whose text is known as characters (every path that Foundation hands
/// out is a string).
pub struct AppPath {
    path: String,
}

impl View for AppPath {
    type V = Seq<char>;

    closed spec fn view(&self) -> Seq<char> {
        self.path@
    }
}

/// Joins two strings as paths.
pub fn join_str(base: &str, component: &str) -> (r: String)
    ensures
        r@ == join_chars(base@, component@),
{
    let clen = component.unicode_len();
    if clen > 0 && component.get_char(0) == '/' {
        return component.to_owned();
    }
    let blen = base.unicode_len();
    let mut r = base.to_owned();
    if blen > 0 && base.get_char(blen - 1) != '/' {
        proof {
            reveal_strlit("/");
        }
        r.append("/");
    }
    r.append(component);
    r
}


/// Appends every byte of `tail` to `v`.
fn push_all(v: &mut Vec<u8>, tail: &[u8])
    ensures
        final(v)@ == old(v)@ + tail@,
{
    let mut i: usize = 0;
    while i < tail.len()
        invariant
            i <= tail@.len(),
            v@ == old(v)@ + tail@.subrange(0, i as int),
        decreases tail@.len() - i,
    {
        v.push(tail[i]);
        i = i + 1;
    }
    assert(tail@.subrange(0, tail@.len() as int) == tail@);
}

/// Joins two raw byte paths.
pub fn join_byte_paths(base: &[u8], component: &[u8]) -> (r: Vec<u8>)
    ensures
        r@ == join_bytes(base@, component@),
{
    let mut r: Vec<u8> = Vec::new();
    if component.len() > 0 && component[0] == 0x2fu8 {
        push_all(&mut r, component);
        return r;
    }
    push_all(&mut r, base);
    if base.len() > 0 && base[base.len() - 1] != 0x2fu8 {
        r.push(0x2fu8);
    }
    push_all(&mut r, component);
    r
}

impl AppPath {
    /// The path whose text is `path`.
    pub fn new(path: &str) -> (r: AppPath)
        ensures
            r@ == path@,
    {
        AppPath { path: path.to_owned() }
    }

    /// The path's text.
    pub fn as_str(&self) -> (r: &str)
        ensures
            r@ == self@,
    {
        self.path.as_str()
    }

    /// The path's text, as an owned string.
    pub fn to_path_string(&self) -> (r: String)
        ensures
            r@ == self@,
    {
        self.path.clone()
    }

    /// `self` joined with `component` (`Path::join`).
    pub fn join(&self, component: &str) -> (r: AppPath)
        ensures
            r@ == join_chars(self@, component@),
    {
        AppPath { path: join_str(self.path.as_str(), component) }
    }
}

/// A relative component joined onto a base lands right under it: the result
/// is the base, at most one separator, then the component.
pub proof fn lemma_join_relative<T>(base: Seq<T>, component: Seq<T>, sep: T)
    requires
        component.len() > 0,
        component[0] != sep,
    ensures
        path_join(base, component, sep).subrange(0, base.len() as int) == base,
        path_join(base, component, sep).subrange(
            path_join(base, component, sep).len() - component.len(),
            path_join(base, component, sep).len() as int,
        ) == component,
        path_join(base, component, sep).len() == base.len() + component.len() + (if base.len()
            == 0 || base.last() == sep {
            0int
        } else {
            1int
        }),
{
    let j = path_join(base, component, sep);
    assert(j.subrange(0, base.len() as int) =~= base);
    assert(j.subrange(j.len() - component.len(), j.len() as int) =~= component);
}

/// Joining with `/` puts the base first and the component last, with one `/`
/// between them exactly when the base is not empty and does not already end
/// in `/`; a component that starts with `/` is taken as it is.
pub proof fn lemma_join_chars_layout(base: Seq<char>, component: Seq<char>)
    ensures
        component.len() > 0 && component[0] == '/' ==> join_chars(base, component) == component,
        !(component.len() > 0 && component[0] == '/') ==> {
            let j = join_chars(base, component);
            let gap: int = if base.len() == 0 || base.last() == '/' { 0 } else { 1 };
            &&& j.len() == base.len() + gap + component.len()
            &&& j.subrange(0, base.len() as int) == base
            &&& gap == 1 ==> j[base.len() as int] == '/'
            &&& j.subrange(base.len() + gap, j.len() as int) == component
        },
{
    let j = join_chars(base, component);
    let gap: int = if base.len() == 0 || base.last() == '/' { 0 } else { 1 };
    if !(component.len() > 0 && component[0] == '/') {
        assert(j.subrange(0, base.len() as int) =~= base);
        assert(j.subrange(base.len() + gap, j.len() as int) =~= component);
    }
}

/// The same layout for raw bytes, with the byte of `/` between base and
/// component.
pub proof fn lemma_join_bytes_layout(base: Seq<u8>, component: Seq<u8>)
    ensures
        component.len() > 0 && component[0] == 0x2fu8 ==> join_bytes(base, component) == component,
        !(component.len() > 0 && component[0] == 0x2fu8) ==> {
            let j = join_bytes(base, component);
            let gap: int = if base.len() == 0 || base.last() == 0x2fu8 { 0 } else { 1 };
            &&& j.len() == base.len() + gap + component.len()
            &&& j.subrange(0, base.len() as int) == base
            &&& gap == 1 ==> j[base.len() as int] == 0x2fu8
            &&& j.subrange(base.len() + gap, j.len() as int) == component
        },
{
    let j = join_bytes(base, component);
    let gap: int = if base.len() == 0 || base.last() == 0x2fu8 { 0 } else { 1 };
    if !(component.len() > 0 && component[0] == 0x2fu8) {
        assert(j.subrange(0, base.len() as int) =~= base);
        assert(j.subrange(base.len() + gap, j.len() as int) =~= component);
    }
}

/// An absolute component replaces whatever it is joined onto.
pub proof fn lemma_join_absolute<T>(base: Seq<T>, component: Seq<T>, sep: T)
    requires
        component.len() > 0,
        component[0] == sep,
    ensures
        path_join(base, component, sep) == component,
{
}

} // verus!
