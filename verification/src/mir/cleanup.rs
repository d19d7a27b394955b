//! What `MirBuilder::finalize` keeps, and that finalizing twice keeps all
//! of it.
use crate::mir::builder::{
    assign_flags, block_flags, def_flags, def_name, first_def, jumps_to, kept_block, last_assign, select,
    terminator_targets,
};
use crate::mir::mir::{MirBlock, MirInstr};
use vstd::prelude::*;

verus! {

/// The globals finalization keeps: the first definition of each name, then
/// the last assignment to each name.
pub open spec fn finalized_globals(g: Seq<MirInstr>) -> Seq<MirInstr> {
    select(select(g, def_flags(g)), assign_flags(select(g, def_flags(g))))
}

/// The blocks of a function finalization keeps.
pub open spec fn finalized_blocks(bs: Seq<MirBlock>) -> Seq<MirBlock> {
    select(bs, block_flags(bs))
}

/// No two instructions define the same name.
pub open spec fn distinct_defs(s: Seq<MirInstr>) -> bool {
    forall|i: int, j: int|
        0 <= i < s.len() && 0 <= j < s.len() && i != j && (#[trigger] def_name(s[i])) is Some ==> def_name(s[i])
            != #[trigger] def_name(s[j])
}

/// No two assignments assign the same name.
pub open spec fn distinct_assigns(s: Seq<MirInstr>) -> bool {
    forall|i: int, j: int|
        0 <= i < s.len() && 0 <= j < s.len() && i != j && (#[trigger] s[i]) is Assign && (#[trigger] s[j]) is Assign
            ==> s[i]->Assign_name@ != s[j]->Assign_name@
}

/// Every element of a selection is a flagged element of the original.
proof fn lemma_select_from<T>(s: Seq<T>, f: Seq<bool>, k: int)
    requires
        f.len() == s.len(),
        0 <= k < select(s, f).len(),
    ensures
        exists|a: int| 0 <= a < s.len() && f[a] && #[trigger] s[a] == select(s, f)[k],
    decreases s.len(),
{
    let r = select(s.drop_last(), f.drop_last());
    if f.last() && k == r.len() {
        assert(s[s.len() - 1] == select(s, f)[k]);
    } else {
        lemma_select_from(s.drop_last(), f.drop_last(), k);
        let a = choose|a: int| 0 <= a < s.len() - 1 && f.drop_last()[a] && #[trigger] s.drop_last()[a] == r[k];
        assert(s[a] == select(s, f)[k]);
    }
}

/// A selection is no longer than the original.
proof fn lemma_select_len<T>(s: Seq<T>, f: Seq<bool>)
    requires
        f.len() == s.len(),
    ensures
        select(s, f).len() <= s.len(),
    decreases s.len(),
{
    if s.len() > 0 {
        lemma_select_len(s.drop_last(), f.drop_last());
    }
}

/// Every flagged element is in the selection.
proof fn lemma_select_keeps<T>(s: Seq<T>, f: Seq<bool>, a: int)
    requires
        f.len() == s.len(),
        0 <= a < s.len(),
        f[a],
    ensures
        exists|k: int| 0 <= k < select(s, f).len() && #[trigger] select(s, f)[k] == s[a],
    decreases s.len(),
{
    let r = select(s.drop_last(), f.drop_last());
    if a == s.len() - 1 {
        assert(select(s, f)[r.len() as int] == s[a]);
    } else {
        lemma_select_keeps(s.drop_last(), f.drop_last(), a);
        let k = choose|k: int| 0 <= k < r.len() && #[trigger] r[k] == s.drop_last()[a];
        assert(select(s, f)[k] == s[a]);
    }
}

/// Selecting with every flag set keeps everything.
proof fn lemma_select_all<T>(s: Seq<T>, f: Seq<bool>)
    requires
        f.len() == s.len(),
        forall|i: int| 0 <= i < s.len() ==> #[trigger] f[i],
    ensures
        select(s, f) == s,
    decreases s.len(),
{
    if s.len() > 0 {
        lemma_select_all(s.drop_last(), f.drop_last());
        assert(s.drop_last().push(s.last()) =~= s);
    }
}

/// Keeping only first definitions leaves no name defined twice.
proof fn lemma_defs_distinct(s: Seq<MirInstr>, f: Seq<bool>)
    requires
        f.len() == s.len(),
        forall|i: int| 0 <= i < s.len() && #[trigger] f[i] ==> first_def(s, i),
    ensures
        distinct_defs(select(s, f)),
    decreases s.len(),
{
    if s.len() > 0 {
        let s1 = s.drop_last();
        let f1 = f.drop_last();
        assert forall|i: int| 0 <= i < s1.len() && #[trigger] f1[i] implies first_def(s1, i) by {
            assert(f[i]);
            assert(first_def(s, i));
            if def_name(s1[i]) is Some {
                assert forall|j: int| 0 <= j < i implies #[trigger] def_name(s1[j]) != def_name(s1[i]) by {
                    assert(s1[j] == s[j]);
                }
            }
        }
        lemma_defs_distinct(s1, f1);
        let r = select(s1, f1);
        if f.last() {
            let x = s.last();
            let q = select(s, f);
            assert(q == r.push(x));
            assert forall|i: int, j: int|
                0 <= i < q.len() && 0 <= j < q.len() && i != j && (#[trigger] def_name(q[i])) is Some implies def_name(q[i])
                    != #[trigger] def_name(q[j]) by {
                if i < r.len() && j < r.len() {
                    assert(q[i] == r[i] && q[j] == r[j]);
                } else {
                    let k = if i < r.len() { i } else { j };
                    assert(k < r.len());
                    lemma_select_from(s1, f1, k);
                    let a = choose|a: int| 0 <= a < s1.len() && f1[a] && #[trigger] s1[a] == r[k];
                    assert(first_def(s, s.len() - 1));
                    assert(s[a] == q[k]);
                    assert(q[q.len() - 1] == s[s.len() - 1]);
                }
            }
        }
    }
}

/// Keeping only last assignments leaves no name assigned twice.
proof fn lemma_assigns_distinct(s: Seq<MirInstr>, f: Seq<bool>)
    requires
        f.len() == s.len(),
        forall|i: int| 0 <= i < s.len() && #[trigger] f[i] ==> last_assign(s, i),
    ensures
        distinct_assigns(select(s, f)),
    decreases s.len(),
{
    if s.len() > 0 {
        let s1 = s.drop_last();
        let f1 = f.drop_last();
        assert forall|i: int| 0 <= i < s1.len() && #[trigger] f1[i] implies last_assign(s1, i) by {
            assert(f[i]);
            assert(last_assign(s, i));
            if s1[i] is Assign {
                assert forall|j: int| i < j < s1.len() && (#[trigger] s1[j]) is Assign implies s1[j]->Assign_name@
                    != s1[i]->Assign_name@ by {
                    assert(s1[j] == s[j]);
                }
            }
        }
        lemma_assigns_distinct(s1, f1);
        let r = select(s1, f1);
        if f.last() {
            let x = s.last();
            let q = select(s, f);
            assert(q == r.push(x));
            assert forall|i: int, j: int|
                0 <= i < q.len() && 0 <= j < q.len() && i != j && (#[trigger] q[i]) is Assign && (#[trigger] q[j]) is Assign
                    implies q[i]->Assign_name@ != q[j]->Assign_name@ by {
                if i < r.len() && j < r.len() {
                    assert(q[i] == r[i] && q[j] == r[j]);
                } else {
                    let k = if i < r.len() { i } else { j };
                    assert(k < r.len());
                    lemma_select_from(s1, f1, k);
                    let a = choose|a: int| 0 <= a < s1.len() && f1[a] && #[trigger] s1[a] == r[k];
                    assert(f[a]);
                    assert(last_assign(s, a));
                    assert(s[a] == q[k]);
                    assert(q[q.len() - 1] == s[s.len() - 1]);
                    assert(s[s.len() - 1] is Assign);
                }
            }
        }
    }
}

/// A selection of a sequence with no name defined twice has none either.
proof fn lemma_select_keeps_distinct_defs(s: Seq<MirInstr>, f: Seq<bool>)
    requires
        f.len() == s.len(),
        distinct_defs(s),
    ensures
        distinct_defs(select(s, f)),
{
    assert forall|i: int| 0 <= i < s.len() && #[trigger] f[i] implies first_def(s, i) by {
        if def_name(s[i]) is Some {
            assert forall|j: int| 0 <= j < i implies #[trigger] def_name(s[j]) != def_name(s[i]) by {}
        }
    }
    lemma_defs_distinct(s, f);
}

/// Finalization keeps every block that has instructions or a terminator:
/// blocks that all have one come out as they went in.
pub proof fn lemma_finalize_keeps_full_blocks(bs: Seq<MirBlock>)
    requires
        forall|i: int| 0 <= i < bs.len() ==> (#[trigger] bs[i]).instrs@.len() > 0 || bs[i].terminator is Some,
    ensures
        finalized_blocks(bs) == bs,
{
    assert forall|i: int| 0 <= i < bs.len() implies #[trigger] block_flags(bs)[i] by {
        assert(kept_block(bs[i], bs));
    }
    lemma_select_all(bs, block_flags(bs));
}

/// Finalizing twice changes nothing: the blocks finalization keeps all
/// survive a second finalization (a block kept for a jump to it keeps
/// that jump, since a block with a terminator is always kept), and the
/// globals it keeps define each name once and assign each name once, so a
/// second pass drops none of them.
pub proof fn lemma_finalize_idempotent(bs: Seq<MirBlock>, g: Seq<MirInstr>)
    ensures
        finalized_blocks(finalized_blocks(bs)) == finalized_blocks(bs),
        finalized_globals(finalized_globals(g)) == finalized_globals(g),
{
    let b1 = finalized_blocks(bs);
    lemma_select_len(bs, block_flags(bs));
    assert forall|k: int| 0 <= k < b1.len() implies #[trigger] block_flags(b1)[k] by {
        lemma_select_from(bs, block_flags(bs), k);
        let a = choose|a: int| 0 <= a < bs.len() && block_flags(bs)[a] && #[trigger] bs[a] == b1[k];
        assert(kept_block(bs[a], bs));
        if !(bs[a].instrs@.len() > 0 || bs[a].terminator is Some) {
            let i = choose|i: int| 0 <= i < bs.len() && #[trigger] terminator_targets(bs[i].terminator, bs[a].label@);
            assert(bs[i].terminator is Some);
            assert(block_flags(bs)[i]);
            lemma_select_keeps(bs, block_flags(bs), i);
            let m = choose|m: int| 0 <= m < b1.len() && #[trigger] b1[m] == bs[i];
            assert(terminator_targets(b1[m].terminator, b1[k].label@));
            assert(jumps_to(b1, b1[k].label@));
        }
    }
    lemma_select_all(b1, block_flags(b1));

    let d = select(g, def_flags(g));
    lemma_select_len(g, def_flags(g));
    lemma_defs_distinct(g, def_flags(g));
    let g1 = finalized_globals(g);
    lemma_select_len(d, assign_flags(d));
    lemma_select_keeps_distinct_defs(d, assign_flags(d));
    lemma_assigns_distinct(d, assign_flags(d));
    assert forall|i: int| 0 <= i < g1.len() implies #[trigger] def_flags(g1)[i] by {
        if def_name(g1[i]) is Some {
            assert forall|j: int| 0 <= j < i implies #[trigger] def_name(g1[j]) != def_name(g1[i]) by {}
        }
    }
    lemma_select_all(g1, def_flags(g1));
    assert forall|i: int| 0 <= i < g1.len() implies #[trigger] assign_flags(g1)[i] by {
        if g1[i] is Assign {
            assert forall|j: int| i < j < g1.len() && (#[trigger] g1[j]) is Assign implies g1[j]->Assign_name@
                != g1[i]->Assign_name@ by {}
        }
    }
    lemma_select_all(g1, assign_flags(g1));
}

} // verus!
