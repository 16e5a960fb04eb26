//! The order in which the rule files found under a directory are loaded:
//! directories are left out, and paths are sorted component by component, so
//! that a load gives the same rules in the same order on every run.
use vstd::prelude::*;
use vstd::utf8::encode_utf8;

verus! {

/// One entry that a recursive walk of a rule directory reported.
pub struct WalkEntry {
    pub path: String,
    pub is_dir: bool,
}

/// The rank of a path byte: the separator `/` sorts before every other byte,
/// which makes byte order agree with component-by-component order.
pub open spec fn byte_rank(b: u8) -> int {
    if b == 47u8 {
        -1
    } else {
        b as int
    }
}

/// Whether path bytes `a` sort no later than path bytes `b`.
pub open spec fn path_bytes_le(a: Seq<u8>, b: Seq<u8>) -> bool
    decreases a.len(),
{
    if a.len() == 0 {
        true
    } else if b.len() == 0 {
        false
    } else if byte_rank(a[0]) != byte_rank(b[0]) {
        byte_rank(a[0]) < byte_rank(b[0])
    } else {
        path_bytes_le(a.drop_first(), b.drop_first())
    }
}

/// Whether path `a` sorts no later than path `b`.
pub open spec fn path_le(a: Seq<char>, b: Seq<char>) -> bool {
    path_bytes_le(encode_utf8(a), encode_utf8(b))
}

/// Whether a sequence of paths is in sorted order.
pub open spec fn paths_sorted(s: Seq<Seq<char>>) -> bool {
    forall|i: int, j: int| 0 <= i < j < s.len() ==> path_le(s[i], s[j])
}

/// The paths of the entries that are not directories, in walk order.
pub open spec fn file_paths(entries: Seq<WalkEntry>) -> Seq<Seq<char>>
    decreases entries.len(),
{
    if entries.len() == 0 {
        Seq::empty()
    } else {
        let rest = file_paths(entries.drop_last());
        if entries.last().is_dir {
            rest
        } else {
            rest.push(entries.last().path@)
        }
    }
}

proof fn lemma_path_bytes_total(a: Seq<u8>, b: Seq<u8>)
    ensures
        path_bytes_le(a, b) || path_bytes_le(b, a),
    decreases a.len(),
{
    if a.len() > 0 && b.len() > 0 && byte_rank(a[0]) == byte_rank(b[0]) {
        lemma_path_bytes_total(a.drop_first(), b.drop_first());
    }
}

proof fn lemma_path_bytes_trans(a: Seq<u8>, b: Seq<u8>, c: Seq<u8>)
    requires
        path_bytes_le(a, b),
        path_bytes_le(b, c),
    ensures
        path_bytes_le(a, c),
    decreases a.len(),
{
    if a.len() > 0 && b.len() > 0 && c.len() > 0 && byte_rank(a[0]) == byte_rank(b[0])
        && byte_rank(b[0]) == byte_rank(c[0]) {
        lemma_path_bytes_trans(a.drop_first(), b.drop_first(), c.drop_first());
    }
}

proof fn lemma_path_bytes_antisym(a: Seq<u8>, b: Seq<u8>)
    requires
        path_bytes_le(a, b),
        path_bytes_le(b, a),
    ensures
        a == b,
    decreases a.len(),
{
    if a.len() > 0 && b.len() > 0 {
        lemma_path_bytes_antisym(a.drop_first(), b.drop_first());
        assert(a[0] == b[0]);
        assert forall|i: int| 0 <= i < a.len() implies a[i] == b[i] by {
            if i > 0 {
                assert(a[i] == a.drop_first()[i - 1]);
                assert(b[i] == b.drop_first()[i - 1]);
            }
        }
        assert(a =~= b);
    } else {
        assert(a =~= b);
    }
}

/// Two paths that each sort no later than the other are the same path.
proof fn lemma_path_le_antisym(a: Seq<char>, b: Seq<char>)
    requires
        path_le(a, b),
        path_le(b, a),
    ensures
        a == b,
{
    lemma_path_bytes_antisym(encode_utf8(a), encode_utf8(b));
    vstd::utf8::encode_utf8_decode_utf8(a);
    vstd::utf8::encode_utf8_decode_utf8(b);
}

/// There is one sorted order of a collection of paths: two sorted sequences
/// that hold the same paths, as often each, are equal.
pub proof fn law_sorted_paths_are_unique(a: Seq<Seq<char>>, b: Seq<Seq<char>>)
    requires
        paths_sorted(a),
        paths_sorted(b),
        a.to_multiset() == b.to_multiset(),
    ensures
        a == b,
    decreases a.len(),
{
    vstd::seq_lib::to_multiset_len(a);
    vstd::seq_lib::to_multiset_len(b);
    if a.len() == 0 {
        assert(a =~= b);
    } else {
        vstd::seq_lib::to_multiset_contains(b, a[0]);
        vstd::seq_lib::to_multiset_contains(a, a[0]);
        vstd::seq_lib::to_multiset_contains(a, b[0]);
        vstd::seq_lib::to_multiset_contains(b, b[0]);
        assert(a.contains(a[0]));
        assert(b.contains(b[0]));
        let j = choose|j: int| 0 <= j < b.len() && b[j] == a[0];
        let k = choose|k: int| 0 <= k < a.len() && a[k] == b[0];
        if j > 0 {
            assert(path_le(b[0], b[j]));
        } else {
            lemma_path_bytes_total(encode_utf8(b[0]), encode_utf8(b[0]));
        }
        if k > 0 {
            assert(path_le(a[0], a[k]));
        } else {
            lemma_path_bytes_total(encode_utf8(a[0]), encode_utf8(a[0]));
        }
        lemma_path_le_antisym(a[0], b[0]);
        vstd::seq_lib::to_multiset_remove(a, 0);
        vstd::seq_lib::to_multiset_remove(b, 0);
        assert(a.remove(0) =~= a.drop_first());
        assert(b.remove(0) =~= b.drop_first());
        assert forall|i: int, j: int| 0 <= i < j < a.drop_first().len() implies path_le(
            a.drop_first()[i],
            a.drop_first()[j],
        ) by {
            assert(path_le(a[i + 1], a[j + 1]));
        }
        assert forall|i: int, j: int| 0 <= i < j < b.drop_first().len() implies path_le(
            b.drop_first()[i],
            b.drop_first()[j],
        ) by {
            assert(path_le(b[i + 1], b[j + 1]));
        }
        law_sorted_paths_are_unique(a.drop_first(), b.drop_first());
        assert forall|i: int| 0 <= i < a.len() implies a[i] == b[i] by {
            if i > 0 {
                assert(a[i] == a.drop_first()[i - 1]);
                assert(b[i] == b.drop_first()[i - 1]);
            }
        }
        assert(a =~= b);
    }
}

/// The load order of a directory depends only on which files its walk found:
/// two walks that report the same files, in whatever order, load them in the
/// same sorted order.
pub proof fn law_load_order_is_determined(
    walk1: Seq<WalkEntry>,
    walk2: Seq<WalkEntry>,
    order1: Seq<Seq<char>>,
    order2: Seq<Seq<char>>,
)
    requires
        file_paths(walk1).to_multiset() == file_paths(walk2).to_multiset(),
        paths_sorted(order1),
        order1.to_multiset() == file_paths(walk1).to_multiset(),
        paths_sorted(order2),
        order2.to_multiset() == file_paths(walk2).to_multiset(),
    ensures
        order1 == order2,
{
    law_sorted_paths_are_unique(order1, order2);
}

/// Compares two paths in the order of `path_le`.
fn path_bytes_le_exec(a: &[u8], b: &[u8]) -> (r: bool)
    ensures
        r == path_bytes_le(a@, b@),
{
    let mut i: usize = 0;
    assert(a@.skip(0) =~= a@ && b@.skip(0) =~= b@);
    while i < a.len() && i < b.len()
        invariant
            i <= a@.len(),
            i <= b@.len(),
            path_bytes_le(a@, b@) == path_bytes_le(a@.skip(i as int), b@.skip(i as int)),
        decreases a.len() - i,
    {
        let x = a[i];
        let y = b[i];
        let rx: i16 = if x == 47u8 { -1 } else { x as i16 };
        let ry: i16 = if y == 47u8 { -1 } else { y as i16 };
        assert(a@.skip(i as int)[0] == x && b@.skip(i as int)[0] == y);
        if rx != ry {
            return rx < ry;
        }
        assert(a@.skip(i as int).drop_first() =~= a@.skip(i + 1));
        assert(b@.skip(i as int).drop_first() =~= b@.skip(i + 1));
        i = i + 1;
    }
    i == a.len()
}

/// The rule files of a directory walk: every entry that is not a directory,
/// with paths in sorted order.
pub fn rule_file_order(entries: &[WalkEntry]) -> (r: Vec<String>)
    ensures
        paths_sorted(r@.map_values(|p: String| p@)),
        r@.map_values(|p: String| p@).to_multiset() == file_paths(entries@).to_multiset(),
{
    let mut out: Vec<String> = Vec::new();
    let mut k: usize = 0;
    assert(out@.map_values(|p: String| p@) =~= file_paths(entries@.subrange(0, 0)));
    while k < entries.len()
        invariant
            k <= entries@.len(),
            paths_sorted(out@.map_values(|p: String| p@)),
            out@.map_values(|p: String| p@).to_multiset() == file_paths(
                entries@.subrange(0, k as int),
            ).to_multiset(),
        decreases entries.len() - k,
    {
        let ghost before = out@.map_values(|p: String| p@);
        assert(entries@.subrange(0, k + 1).drop_last() =~= entries@.subrange(0, k as int));
        if !entries[k].is_dir {
            let path = entries[k].path.clone();
            let key = path.as_str().as_bytes();
            let mut pos: usize = 0;
            while pos < out.len()
                invariant
                    pos <= out@.len(),
                    out@.map_values(|p: String| p@) == before,
                    key@ == encode_utf8(path@),
                    forall|j: int| 0 <= j < pos ==> path_le(before[j], path@),
                    paths_sorted(before),
                ensures
                    pos <= out@.len(),
                    out@.map_values(|p: String| p@) == before,
                    forall|j: int| 0 <= j < pos ==> path_le(before[j], path@),
                    pos < out@.len() ==> !path_le(before[pos as int], path@),
                    paths_sorted(before),
                decreases out.len() - pos,
            {
                if !path_bytes_le_exec(out[pos].as_str().as_bytes(), key) {
                    break;
                }
                pos = pos + 1;
            }
            proof {
                if pos < before.len() {
                    lemma_path_bytes_total(encode_utf8(before[pos as int]), encode_utf8(path@));
                    assert forall|j: int| pos <= j < before.len() implies path_le(
                        path@,
                        before[j],
                    ) by {
                        if j > pos {
                            assert(path_le(before[pos as int], before[j]));
                            lemma_path_bytes_trans(
                                encode_utf8(path@),
                                encode_utf8(before[pos as int]),
                                encode_utf8(before[j]),
                            );
                        }
                    }
                }
            }
            out.insert(pos, path);
            proof {
                let now = out@.map_values(|p: String| p@);
                assert(now =~= before.insert(pos as int, path@));
                assert forall|i: int, j: int| 0 <= i < j < now.len() implies path_le(
                    now[i],
                    now[j],
                ) by {
                    if i < pos && j > pos {
                        lemma_path_bytes_trans(
                            encode_utf8(now[i]),
                            encode_utf8(path@),
                            encode_utf8(now[j]),
                        );
                    }
                }
                before.to_multiset_ensures();
                vstd::seq_lib::to_multiset_insert(before, pos as int, path@);
                file_paths(entries@.subrange(0, k as int)).to_multiset_ensures();
            }
        }
        k = k + 1;
    }
    assert(entries@.subrange(0, k as int) =~= entries@);
    out
}

} // verus!
