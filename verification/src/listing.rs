//! Which files of a class directory are images, and in what order they are
//! catalogued.
//!
//! A file is an image where its name ends in `.png` after at least one other
//! character. Names are ordered by the bytes of their UTF-8 encoding, which is
//! the order of their code points and looks at no locale.

use crate::text::strings_view;
use vstd::prelude::*;
use vstd::relations::{sorted_by, total_ordering};
use vstd::seq_lib::{lemma_multiset_commutative, lemma_sorted_unique, to_multiset_build};
use vstd::string::StrSliceExecFns;
use vstd::utf8::{encode_utf8, encode_utf8_decode_utf8};

verus! {

/// Whether `a`, from position `i` on, comes before `b` from there on or is
/// equal to it, byte by byte; a string comes before those that it starts.
pub open spec fn bytes_le_from(a: Seq<u8>, b: Seq<u8>, i: int) -> bool
    decreases a.len() - i,
{
    if i < 0 || i >= a.len() {
        true
    } else if i >= b.len() {
        false
    } else if a[i] != b[i] {
        a[i] < b[i]
    } else {
        bytes_le_from(a, b, i + 1)
    }
}

/// Whether the name `a` stands before the name `b` or is the same name.
pub open spec fn name_le(a: Seq<char>, b: Seq<char>) -> bool {
    bytes_le_from(encode_utf8(a), encode_utf8(b), 0)
}

/// The order of names, as a relation.
pub open spec fn name_order() -> spec_fn(Seq<char>, Seq<char>) -> bool {
    |a: Seq<char>, b: Seq<char>| name_le(a, b)
}

/// Whether a file name is that of an image.
pub open spec fn is_image_name(name: Seq<char>) -> bool {
    let n = name.len() as int;
    &&& n >= 5
    &&& name[n - 4] == '.'
    &&& name[n - 3] == 'p'
    &&& name[n - 2] == 'n'
    &&& name[n - 1] == 'g'
}

/// The test for image names, as a predicate.
pub open spec fn image_filter() -> spec_fn(Seq<char>) -> bool {
    |name: Seq<char>| is_image_name(name)
}

/// The image names among `names`, in the order in which they come.
pub open spec fn image_names(names: Seq<Seq<char>>) -> Seq<Seq<char>> {
    names.filter(image_filter())
}

/// The image names among `names`, in the order of the catalogue.
pub open spec fn sorted_image_names(names: Seq<Seq<char>>) -> Seq<Seq<char>> {
    image_names(names).sort_by(name_order())
}

proof fn lemma_bytes_le_total(a: Seq<u8>, b: Seq<u8>, i: int)
    requires
        0 <= i,
    ensures
        bytes_le_from(a, b, i) || bytes_le_from(b, a, i),
    decreases a.len() - i,
{
    if i < a.len() && i < b.len() && a[i] == b[i] {
        lemma_bytes_le_total(a, b, i + 1);
    }
}

proof fn lemma_bytes_le_transitive(a: Seq<u8>, b: Seq<u8>, c: Seq<u8>, i: int)
    requires
        0 <= i,
        bytes_le_from(a, b, i),
        bytes_le_from(b, c, i),
    ensures
        bytes_le_from(a, c, i),
    decreases a.len() - i,
{
    if i < a.len() && a[i] == b[i] && b[i] == c[i] {
        lemma_bytes_le_transitive(a, b, c, i + 1);
    }
}

proof fn lemma_bytes_le_antisymmetric(a: Seq<u8>, b: Seq<u8>, i: int)
    requires
        0 <= i <= a.len(),
        i <= b.len(),
        bytes_le_from(a, b, i),
        bytes_le_from(b, a, i),
    ensures
        a.len() == b.len(),
        forall|k: int| i <= k < a.len() ==> a[k] == b[k],
    decreases a.len() - i,
{
    if i < a.len() {
        lemma_bytes_le_antisymmetric(a, b, i + 1);
    }
}

/// The order of names is a total order.
pub proof fn lemma_name_order_total()
    ensures
        total_ordering(name_order()),
{
    let r = name_order();
    assert forall|x: Seq<char>, y: Seq<char>| #[trigger] r(x, y) || #[trigger] r(y, x) by {
        lemma_bytes_le_total(encode_utf8(x), encode_utf8(y), 0);
    }
    assert forall|x: Seq<char>| #[trigger] r(x, x) by {
        lemma_bytes_le_total(encode_utf8(x), encode_utf8(x), 0);
    }
    assert forall|x: Seq<char>, y: Seq<char>| #[trigger] r(x, y) && #[trigger] r(y, x) implies x
        == y by {
        lemma_bytes_le_antisymmetric(encode_utf8(x), encode_utf8(y), 0);
        assert(encode_utf8(x) =~= encode_utf8(y));
        encode_utf8_decode_utf8(x);
        encode_utf8_decode_utf8(y);
    }
    assert forall|x: Seq<char>, y: Seq<char>, z: Seq<char>| #[trigger]
        r(x, y) && #[trigger] r(y, z) implies r(x, z) by {
        lemma_bytes_le_transitive(encode_utf8(x), encode_utf8(y), encode_utf8(z), 0);
    }
}

/// Whether the name `a` stands before the name `b` or is the same name.
pub fn precedes(a: &str, b: &str) -> (r: bool)
    ensures
        r == name_le(a@, b@),
{
    let x = a.as_bytes();
    let y = b.as_bytes();
    let mut i: usize = 0;
    while i < x.len() && i < y.len()
        invariant
            x@ == encode_utf8(a@),
            y@ == encode_utf8(b@),
            i <= x@.len(),
            i <= y@.len(),
            bytes_le_from(x@, y@, 0) == bytes_le_from(x@, y@, i as int),
        decreases x@.len() - i,
    {
        if x[i] != y[i] {
            return x[i] < y[i];
        }
        i += 1;
    }
    x.len() <= y.len()
}

/// Whether a file name is that of an image.
pub fn is_image_file(name: &str) -> (r: bool)
    ensures
        r == is_image_name(name@),
{
    let n: usize = name.unicode_len();
    if n < 5 {
        return false;
    }
    name.get_char(n - 4) == '.' && name.get_char(n - 3) == 'p' && name.get_char(n - 2) == 'n'
        && name.get_char(n - 1) == 'g'
}

/// Merges two sorted runs of names into one.
fn merge(a: &Vec<String>, b: &Vec<String>) -> (r: Vec<String>)
    requires
        sorted_by(strings_view(a@), name_order()),
        sorted_by(strings_view(b@), name_order()),
    ensures
        sorted_by(strings_view(r@), name_order()),
        strings_view(r@).to_multiset() == strings_view(a@).to_multiset().add(
            strings_view(b@).to_multiset(),
        ),
{
    let ghost xs = strings_view(a@);
    let ghost ys = strings_view(b@);
    let mut out: Vec<String> = Vec::new();
    let mut i: usize = 0;
    let mut j: usize = 0;
    proof {
        lemma_name_order_total();
        assert(xs.take(0) =~= Seq::empty());
        assert(ys.take(0) =~= Seq::empty());
        assert(strings_view(out@) =~= Seq::empty());
        lemma_multiset_commutative(xs.take(0), ys.take(0));
    }
    while i < a.len() || j < b.len()
        invariant
            xs == strings_view(a@),
            ys == strings_view(b@),
            total_ordering(name_order()),
            sorted_by(xs, name_order()),
            sorted_by(ys, name_order()),
            i <= a@.len(),
            j <= b@.len(),
            sorted_by(strings_view(out@), name_order()),
            strings_view(out@).to_multiset() == xs.take(i as int).to_multiset().add(
                ys.take(j as int).to_multiset(),
            ),
            forall|p: int, q: int|
                0 <= p < out@.len() && i <= q < xs.len() ==> name_le(
                    #[trigger] strings_view(out@)[p],
                    #[trigger] xs[q],
                ),
            forall|p: int, q: int|
                0 <= p < out@.len() && j <= q < ys.len() ==> name_le(
                    #[trigger] strings_view(out@)[p],
                    #[trigger] ys[q],
                ),
        decreases a@.len() - i + b@.len() - j,
    {
        let ghost before = strings_view(out@);
        let take_left = if j >= b.len() {
            true
        } else if i >= a.len() {
            false
        } else {
            precedes(a[i].as_str(), b[j].as_str())
        };
        if take_left {
            let item = a[i].clone();
            out.push(item);
            proof {
                let x = xs[i as int];
                assert(strings_view(out@) =~= before.push(x));
                assert(xs.take(i + 1) =~= xs.take(i as int).push(x));
                to_multiset_build(before, x);
                to_multiset_build(xs.take(i as int), x);
                assert(strings_view(out@).to_multiset() =~= xs.take(i + 1).to_multiset().add(
                    ys.take(j as int).to_multiset(),
                ));
                assert forall|p: int, q: int|
                    0 <= p < out@.len() && i + 1 <= q < xs.len() implies name_le(
                    #[trigger] strings_view(out@)[p],
                    #[trigger] xs[q],
                ) by {
                    if p == out@.len() - 1 {
                        assert(name_order()(xs[i as int], xs[q]));
                    }
                }
                assert forall|p: int, q: int|
                    0 <= p < out@.len() && j <= q < ys.len() implies name_le(
                    #[trigger] strings_view(out@)[p],
                    #[trigger] ys[q],
                ) by {
                    if p == out@.len() - 1 {
                        assert(name_order()(x, ys[j as int]));
                        if j < q {
                            assert(name_order()(ys[j as int], ys[q]));
                        }
                        assert(name_order()(x, ys[q]));
                    }
                }
                assert forall|p: int, q: int|
                    0 <= p < q < strings_view(out@).len() implies #[trigger] name_order()(
                    strings_view(out@)[p],
                    strings_view(out@)[q],
                ) by {
                    if q == out@.len() - 1 {
                        assert(name_le(before[p], xs[i as int]));
                    } else {
                        assert(name_order()(before[p], before[q]));
                    }
                }
            }
            i += 1;
        } else {
            let item = b[j].clone();
            out.push(item);
            proof {
                let y = ys[j as int];
                assert(strings_view(out@) =~= before.push(y));
                assert(ys.take(j + 1) =~= ys.take(j as int).push(y));
                to_multiset_build(before, y);
                to_multiset_build(ys.take(j as int), y);
                assert(strings_view(out@).to_multiset() =~= xs.take(i as int).to_multiset().add(
                    ys.take(j + 1).to_multiset(),
                ));
                assert forall|p: int, q: int|
                    0 <= p < out@.len() && j + 1 <= q < ys.len() implies name_le(
                    #[trigger] strings_view(out@)[p],
                    #[trigger] ys[q],
                ) by {
                    if p == out@.len() - 1 {
                        assert(name_order()(ys[j as int], ys[q]));
                    }
                }
                assert forall|p: int, q: int|
                    0 <= p < out@.len() && i <= q < xs.len() implies name_le(
                    #[trigger] strings_view(out@)[p],
                    #[trigger] xs[q],
                ) by {
                    if p == out@.len() - 1 {
                        assert(name_order()(xs[i as int], y) || name_order()(y, xs[i as int]));
                        assert(name_order()(y, xs[i as int]));
                        if i < q {
                            assert(name_order()(xs[i as int], xs[q]));
                        }
                        assert(name_order()(y, xs[q]));
                    }
                }
                assert forall|p: int, q: int|
                    0 <= p < q < strings_view(out@).len() implies #[trigger] name_order()(
                    strings_view(out@)[p],
                    strings_view(out@)[q],
                ) by {
                    if q == out@.len() - 1 {
                        assert(name_le(before[p], ys[j as int]));
                    } else {
                        assert(name_order()(before[p], before[q]));
                    }
                }
            }
            j += 1;
        }
    }
    proof {
        assert(xs.take(i as int) =~= xs);
        assert(ys.take(j as int) =~= ys);
    }
    out
}

/// Sorts the names `v[lo..hi]`.
fn sort_range(v: &Vec<String>, lo: usize, hi: usize) -> (r: Vec<String>)
    requires
        lo <= hi <= v@.len(),
    ensures
        strings_view(r@) == strings_view(v@).subrange(lo as int, hi as int).sort_by(name_order()),
    decreases hi - lo,
{
    let ghost part = strings_view(v@).subrange(lo as int, hi as int);
    proof {
        lemma_name_order_total();
        part.lemma_sort_by_ensures(name_order());
    }
    if hi - lo <= 1 {
        let mut out: Vec<String> = Vec::new();
        if lo < hi {
            out.push(v[lo].clone());
        }
        proof {
            assert(strings_view(out@) =~= part);
            lemma_sorted_unique(strings_view(out@), part.sort_by(name_order()), name_order());
        }
        return out;
    }
    let mid: usize = lo + (hi - lo) / 2;
    let left = sort_range(v, lo, mid);
    let right = sort_range(v, mid, hi);
    let ghost first = strings_view(v@).subrange(lo as int, mid as int);
    let ghost second = strings_view(v@).subrange(mid as int, hi as int);
    proof {
        first.lemma_sort_by_ensures(name_order());
        second.lemma_sort_by_ensures(name_order());
    }
    let out = merge(&left, &right);
    proof {
        assert(part =~= first + second);
        lemma_multiset_commutative(first, second);
        lemma_sorted_unique(strings_view(out@), part.sort_by(name_order()), name_order());
    }
    out
}

/// Sorts names into the order of the catalogue.
pub fn sort_names(v: &Vec<String>) -> (r: Vec<String>)
    ensures
        strings_view(r@) == strings_view(v@).sort_by(name_order()),
{
    assert(strings_view(v@).subrange(0, v@.len() as int) =~= strings_view(v@));
    sort_range(v, 0, v.len())
}

/// The image files among the entries of a directory, in the order of the
/// catalogue.
pub fn list_pngs_sorted(entries: &Vec<String>) -> (r: Vec<String>)
    ensures
        strings_view(r@) == sorted_image_names(strings_view(entries@)),
{
    let ghost names = strings_view(entries@);
    let mut kept: Vec<String> = Vec::new();
    let mut i: usize = 0;
    proof {
        reveal(Seq::filter);
        assert(names.take(0) =~= Seq::empty());
        assert(strings_view(kept@) =~= names.take(0).filter(image_filter()));
    }
    while i < entries.len()
        invariant
            names == strings_view(entries@),
            i <= entries@.len(),
            strings_view(kept@) == names.take(i as int).filter(image_filter()),
        decreases entries@.len() - i,
    {
        let ghost before = strings_view(kept@);
        proof {
            reveal(Seq::filter);
            assert(names.take(i + 1).drop_last() =~= names.take(i as int));
        }
        if is_image_file(entries[i].as_str()) {
            kept.push(entries[i].clone());
            assert(strings_view(kept@) =~= before.push(names[i as int]));
        }
        i += 1;
    }
    assert(names.take(i as int) =~= names);
    sort_names(&kept)
}

} // verus!
