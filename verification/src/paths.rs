//! Paths as text, with `/` between their parts.

use crate::text;
use crate::text::Text;
use vstd::prelude::*;
use vstd::string::*;

verus! {

/// Whether a path starts at the root.
pub open spec fn is_absolute(p: Text) -> bool {
    p.len() > 0 && p[0] == '/'
}

/// A path below another: an absolute one stands for itself.
pub open spec fn joined_path(base: Text, p: Text) -> Text {
    if is_absolute(p) {
        p
    } else if base.len() == 0 || base.last() == '/' {
        base + p
    } else {
        base.push('/') + p
    }
}

/// Whether a part of a path counts as a component: a part that is empty or `.`
/// does not, but for a `.` at the start.
pub open spec fn is_component(parts: Seq<Text>, i: int) -> bool {
    parts[i].len() > 0 && (parts[i] != "."@ || i == 0)
}

/// The components among the first `n` parts.
pub open spec fn components_upto(parts: Seq<Text>, n: int) -> Seq<Text>
    decreases n,
{
    if n <= 0 {
        Seq::empty()
    } else {
        let before = components_upto(parts, n - 1);
        if is_component(parts, n - 1) {
            before.push(parts[n - 1])
        } else {
            before
        }
    }
}

/// The components of a path: the root, where it starts there, and the parts
/// between the slashes. Repeated and trailing slashes do not count, nor does a
/// `.` but at the start; `..` stays.
pub open spec fn components_of(p: Text) -> Seq<Text> {
    let parts = text::split_at_char(p, '/');
    let rest = components_upto(parts, parts.len() as int);
    if is_absolute(p) {
        seq!["/"@] + rest
    } else {
        rest
    }
}

/// Whether one of two paths lies at or below the other.
pub open spec fn overlapping(left: Text, right: Text) -> bool {
    let l = components_of(left);
    let r = components_of(right);
    let common = if l.len() <= r.len() {
        l.len() as int
    } else {
        r.len() as int
    };
    l.take(common) == r.take(common)
}

/// A path below another.
pub fn join(base: &str, p: &str) -> (r: String)
    ensures
        r@ == joined_path(base@, p@),
{
    if !p.is_empty() && p.get_char(0) == '/' {
        return text::copy(p);
    }
    let n: usize = base.unicode_len();
    if n == 0 || base.get_char(n - 1) == '/' {
        text::cat2(base, p)
    } else {
        let mut r = text::copy(base);
        r.push('/');
        r.append(p);
        r
    }
}

/// The components of a path.
pub fn components(p: &str) -> (r: Vec<String>)
    ensures
        text::texts(r@) == components_of(p@),
{
    let parts = text::split_char(p, '/');
    let ghost ps = text::texts(parts@);
    let mut out: Vec<String> = Vec::new();
    if !p.is_empty() && p.get_char(0) == '/' {
        text::push_text(&mut out, text::copy("/"));
    }
    let ghost head = text::texts(out@);
    assert(head =~= if is_absolute(p@) {
        seq!["/"@]
    } else {
        Seq::<Text>::empty()
    });
    let mut i: usize = 0;
    assert(head + components_upto(ps, 0) =~= head);
    while i < parts.len()
        invariant
            i <= parts@.len(),
            ps == text::texts(parts@),
            text::texts(out@) == head + components_upto(ps, i as int),
        decreases parts@.len() - i,
    {
        let part = parts[i].as_str();
        let ghost before = components_upto(ps, i as int);
        assert(ps[i as int] == part@);
        if !part.is_empty() && (!text::same(part, ".") || i == 0) {
            text::push_text(&mut out, text::copy(part));
            assert((head + before).push(part@) =~= head + before.push(part@));
        }
        i = i + 1;
    }
    assert(text::texts(out@) =~= components_of(p@));
    out
}

/// Whether two paths may refer to the same subtree.
pub fn paths_overlap(left: &str, right: &str) -> (r: bool)
    ensures
        r == overlapping(left@, right@),
{
    let l = components(left);
    let r = components(right);
    let ghost lv = text::texts(l@);
    let ghost rv = text::texts(r@);
    let common: usize = if l.len() <= r.len() {
        l.len()
    } else {
        r.len()
    };
    let mut i: usize = 0;
    while i < common
        invariant
            i <= common <= l@.len(),
            common <= r@.len(),
            lv == text::texts(l@),
            rv == text::texts(r@),
            lv == components_of(left@),
            rv == components_of(right@),
            common == if lv.len() <= rv.len() {
                lv.len()
            } else {
                rv.len()
            },
            lv.take(i as int) == rv.take(i as int),
        decreases common - i,
    {
        if !text::same(l[i].as_str(), r[i].as_str()) {
            assert(lv.take(common as int)[i as int] != rv.take(common as int)[i as int]);
            return false;
        }
        assert(lv.take(i + 1) =~= lv.take(i as int).push(lv[i as int]));
        assert(rv.take(i + 1) =~= rv.take(i as int).push(rv[i as int]));
        i = i + 1;
    }
    true
}

/// `dirs::home_dir`: the user's home directory, where there is one. It depends
/// on the environment, so nothing is said of it.
#[verifier::external_body]
pub(crate) fn home_dir() -> (r: Option<String>) {
    dirs::home_dir().map(|p| p.to_string_lossy().into_owned())
}

/// Two paths overlap whichever is named first, and a path overlaps itself.
pub proof fn law_overlap_is_symmetric(left: Text, right: Text)
    ensures
        overlapping(left, right) == overlapping(right, left),
        overlapping(left, left),
{
}

/// Paths overlap exactly where one of them lies at or below the other: where the parts of
/// one begin with all the parts of the other.
pub proof fn law_overlap_is_containment(left: Text, right: Text)
    ensures
        overlapping(left, right) == (components_of(left).is_prefix_of(components_of(right))
            || components_of(right).is_prefix_of(components_of(left))),
{
    let l = components_of(left);
    let r = components_of(right);
    if l.len() <= r.len() {
        assert(l.take(l.len() as int) =~= l);
        assert(r.take(l.len() as int) =~= r.subrange(0, l.len() as int));
        if r.is_prefix_of(l) {
            assert(l =~= r);
        }
    } else {
        assert(r.take(r.len() as int) =~= r);
        assert(l.take(r.len() as int) =~= l.subrange(0, r.len() as int));
    }
}

} // verus!
