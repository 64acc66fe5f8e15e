use vstd::prelude::*;
use crate::node::{DirNode, FileNode};
use crate::text::chars_of;

verus! {

broadcast use vstd::seq_lib::group_to_multiset_ensures;

/// `a` comes no later than `b`: compared character by character by code
/// point (the byte order of their UTF-8 forms), a prefix first.
pub open spec fn name_le(a: Seq<char>, b: Seq<char>) -> bool
    decreases a.len(),
{
    if a.len() == 0 {
        true
    } else if b.len() == 0 {
        false
    } else if a[0] != b[0] {
        (a[0] as int) < (b[0] as int)
    } else {
        name_le(a.drop_first(), b.drop_first())
    }
}

pub proof fn lemma_name_le_total(a: Seq<char>, b: Seq<char>)
    ensures
        name_le(a, b) || name_le(b, a),
    decreases a.len(),
{
    if a.len() > 0 && b.len() > 0 && a[0] == b[0] {
        lemma_name_le_total(a.drop_first(), b.drop_first());
    } else if a.len() > 0 && b.len() > 0 {
        assert((a[0] as int) != (b[0] as int));
    }
}

pub proof fn lemma_name_le_trans(a: Seq<char>, b: Seq<char>, c: Seq<char>)
    requires
        name_le(a, b),
        name_le(b, c),
    ensures
        name_le(a, c),
    decreases a.len(),
{
    if a.len() > 0 && b.len() > 0 && c.len() > 0 && a[0] == b[0] && b[0] == c[0] {
        lemma_name_le_trans(a.drop_first(), b.drop_first(), c.drop_first());
    }
}

/// Whether `a` comes no later than `b` in name order.
pub fn name_le_chars(a: &Vec<char>, b: &Vec<char>) -> (r: bool)
    ensures
        r == name_le(a@, b@),
{
    let mut i: usize = 0;
    assert(a@.skip(0) =~= a@);
    assert(b@.skip(0) =~= b@);
    while i < a.len() && i < b.len() && a[i] == b[i]
        invariant
            i <= a@.len(),
            i <= b@.len(),
            name_le(a@, b@) == name_le(a@.skip(i as int), b@.skip(i as int)),
        decreases a@.len() - i,
    {
        proof {
            assert(a@.skip(i as int).drop_first() =~= a@.skip(i + 1));
            assert(b@.skip(i as int).drop_first() =~= b@.skip(i + 1));
        }
        i = i + 1;
    }
    if i == a.len() {
        true
    } else if i == b.len() {
        assert(b@.skip(i as int).len() == 0);
        false
    } else {
        assert(a@.skip(i as int)[0] == a@[i as int]);
        assert(b@.skip(i as int)[0] == b@[i as int]);
        a[i] < b[i]
    }
}

/// The insertion sort of `items` by `keys`, where `keys[i]` is `key` of
/// `items[i]`.
fn sort_by_keys<T>(items: Vec<T>, keys: Vec<Vec<char>>, Ghost(key): Ghost<spec_fn(T) -> Seq<char>>) -> (r: Vec<T>)
    requires
        keys@.len() == items@.len(),
        forall|i: int| 0 <= i < items@.len() ==> (#[trigger] keys@[i])@ == key(items@[i]),
    ensures
        r@.to_multiset() == items@.to_multiset(),
        forall|i: int, j: int| 0 <= i < j < r@.len() ==> name_le(key(#[trigger] r@[i]), key(#[trigger] r@[j])),
{
    let ghost orig = items@;
    let mut rest = items;
    let mut rest_keys = keys;
    let mut out: Vec<T> = Vec::new();
    let mut out_keys: Vec<Vec<char>> = Vec::new();
    while rest.len() > 0
        invariant
            rest_keys@.len() == rest@.len(),
            forall|i: int| 0 <= i < rest@.len() ==> (#[trigger] rest_keys@[i])@ == key(rest@[i]),
            out_keys@.len() == out@.len(),
            forall|i: int| 0 <= i < out@.len() ==> (#[trigger] out_keys@[i])@ == key(out@[i]),
            out@.to_multiset().add(rest@.to_multiset()) == orig.to_multiset(),
            forall|i: int, j: int| 0 <= i < j < out@.len() ==> name_le(key(#[trigger] out@[i]), key(#[trigger] out@[j])),
        decreases rest@.len(),
    {
        let ghost before = rest@;
        let ghost before_keys = rest_keys@;
        let x = rest.pop().unwrap();
        let xk = rest_keys.pop().unwrap();
        proof {
            assert(before == rest@.push(x));
            assert(xk@ == key(x));
            assert forall|i: int| 0 <= i < rest@.len() implies (#[trigger] rest_keys@[i])@ == key(rest@[i]) by {
                assert(rest_keys@[i] == before_keys[i]);
                assert(rest@[i] == before[i]);
            }
        }
        let mut p: usize = 0;
        while p < out.len() && name_le_chars(&out_keys[p], &xk)
            invariant
                p <= out@.len(),
                out_keys@.len() == out@.len(),
                forall|i: int| 0 <= i < out@.len() ==> (#[trigger] out_keys@[i])@ == key(out@[i]),
                forall|k: int| 0 <= k < p ==> name_le(key(#[trigger] out@[k]), xk@),
            decreases out@.len() - p,
        {
            p = p + 1;
        }
        let ghost old_out = out@;
        let ghost old_keys = out_keys@;
        proof {
            if p < old_out.len() {
                lemma_name_le_total(key(old_out[p as int]), xk@);
            }
        }
        out.insert(p, x);
        out_keys.insert(p, xk);
        proof {
            assert(out@ == old_out.insert(p as int, x));
            assert(out_keys@ == old_keys.insert(p as int, xk));
            assert forall|i: int| 0 <= i < out@.len() implies (#[trigger] out_keys@[i])@ == key(out@[i]) by {
                if i < p {
                } else if i == p {
                } else {
                    assert(out@[i] == old_out[i - 1]);
                    assert(out_keys@[i] == old_keys[i - 1]);
                }
            }
            assert forall|i: int, j: int| 0 <= i < j < out@.len() implies name_le(key(#[trigger] out@[i]), key(#[trigger] out@[j])) by {
                if j < p {
                } else if j == p {
                } else if i < p {
                    lemma_name_le_trans(key(old_out[i]), xk@, key(old_out[p as int]));
                    if j - 1 > p {
                        lemma_name_le_trans(key(old_out[i]), key(old_out[p as int]), key(old_out[j - 1]));
                    }
                } else if i == p {
                    if j - 1 > p {
                        lemma_name_le_trans(xk@, key(old_out[p as int]), key(old_out[j - 1]));
                    }
                } else {
                    assert(out@[i] == old_out[i - 1]);
                    assert(out@[j] == old_out[j - 1]);
                }
            }
        }
    }
    assert(rest@ =~= Seq::<T>::empty());
    assert(out@.to_multiset().add(rest@.to_multiset()) =~= out@.to_multiset());
    out
}

proof fn lemma_same_multiset_members<T>(a: Seq<T>, b: Seq<T>)
    requires
        a.to_multiset() == b.to_multiset(),
    ensures
        a.len() == b.len(),
        forall|i: int| 0 <= i < a.len() ==> b.contains(#[trigger] a[i]),
{
    assert(a.to_multiset().len() == a.len());
    assert(b.to_multiset().len() == b.len());
    assert forall|i: int| 0 <= i < a.len() implies b.contains(#[trigger] a[i]) by {
        assert(a.contains(a[i]));
        assert(a.to_multiset().count(a[i]) > 0);
        assert(b.to_multiset().count(a[i]) > 0);
    }
}

/// Directories in ascending name order.
pub open spec fn dirs_sorted(ds: Seq<DirNode>) -> bool {
    forall|i: int, j: int| 0 <= i < j < ds.len() ==> name_le(#[trigger] ds[i].name@, #[trigger] ds[j].name@)
}

/// Files in ascending name order.
pub open spec fn files_sorted(fs: Seq<FileNode>) -> bool {
    forall|i: int, j: int| 0 <= i < j < fs.len() ==> name_le(#[trigger] fs[i].name@, #[trigger] fs[j].name@)
}

/// `v` sorted by name.
pub fn sort_dirs(v: Vec<DirNode>) -> (r: Vec<DirNode>)
    ensures
        r@.to_multiset() == v@.to_multiset(),
        r@.len() == v@.len(),
        forall|i: int| 0 <= i < r@.len() ==> v@.contains(#[trigger] r@[i]),
        dirs_sorted(r@),
{
    let mut keys: Vec<Vec<char>> = Vec::new();
    let mut i: usize = 0;
    while i < v.len()
        invariant
            i <= v@.len(),
            keys@.len() == i,
            forall|k: int| 0 <= k < i ==> (#[trigger] keys@[k])@ == v@[k].name@,
        decreases v@.len() - i,
    {
        keys.push(chars_of(v[i].name.as_str()));
        i = i + 1;
    }
    let ghost orig = v@;
    let r = sort_by_keys(v, keys, Ghost(|d: DirNode| d.name@));
    proof {
        lemma_same_multiset_members(r@, orig);
    }
    r
}

/// `v` sorted by name.
pub fn sort_files(v: Vec<FileNode>) -> (r: Vec<FileNode>)
    ensures
        r@.to_multiset() == v@.to_multiset(),
        r@.len() == v@.len(),
        forall|i: int| 0 <= i < r@.len() ==> v@.contains(#[trigger] r@[i]),
        files_sorted(r@),
{
    let mut keys: Vec<Vec<char>> = Vec::new();
    let mut i: usize = 0;
    while i < v.len()
        invariant
            i <= v@.len(),
            keys@.len() == i,
            forall|k: int| 0 <= k < i ==> (#[trigger] keys@[k])@ == v@[k].name@,
        decreases v@.len() - i,
    {
        keys.push(chars_of(v[i].name.as_str()));
        i = i + 1;
    }
    let ghost orig = v@;
    let r = sort_by_keys(v, keys, Ghost(|f: FileNode| f.name@));
    proof {
        lemma_same_multiset_members(r@, orig);
    }
    r
}

} // verus!
