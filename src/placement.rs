use vstd::prelude::*;
use crate::types::{EntityKey, EntityType, Position};

verus! {

/// The entity tables of a match, each seen as rows of (uid, position).
#[derive(PartialEq, Eq, Structural, Clone, Copy, Debug)]
pub enum Table {
    RedTowers,
    BlueTowers,
    RedMercenaries,
    BlueMercenaries,
    Enemies,
    Spawners,
    RedBase,
    BlueBase,
}

/// The kind of entity that a table holds.
pub open spec fn table_kind(t: Table) -> EntityType {
    match t {
        Table::RedTowers | Table::BlueTowers => EntityType::Tower,
        Table::RedMercenaries | Table::BlueMercenaries => EntityType::Mercenary,
        Table::Enemies => EntityType::Enemy,
        Table::Spawners => EntityType::EnemySpawner,
        Table::RedBase | Table::BlueBase => EntityType::PlayerBase,
    }
}

pub open spec fn key_of(t: Table, uid: u64) -> EntityKey {
    EntityKey { uid, entity_type: table_kind(t) }
}

/// Every row of every table is in the index, at its position, under its key.
pub open spec fn rows_indexed(
    rows: spec_fn(Table) -> Seq<(u64, Position)>,
    index: Map<Position, EntityKey>,
) -> bool {
    forall|t: Table, i: int|
        #![trigger rows(t)[i]]
        0 <= i < rows(t).len() ==> index.contains_key(rows(t)[i].1) && index[rows(t)[i].1]
            == key_of(t, rows(t)[i].0)
}

/// The index entry at `p` is a row of a table of its kind, at `p`.
pub open spec fn entry_has_row(
    rows: spec_fn(Table) -> Seq<(u64, Position)>,
    index: Map<Position, EntityKey>,
    p: Position,
) -> bool {
    exists|t: Table, i: int|
        #![trigger rows(t)[i]]
        0 <= i < rows(t).len() && table_kind(t) == index[p].entity_type && rows(t)[i] == (
            index[p].uid,
            p,
        )
}

/// Every index entry stands for a row.
pub open spec fn entries_have_rows(
    rows: spec_fn(Table) -> Seq<(u64, Position)>,
    index: Map<Position, EntityKey>,
) -> bool {
    forall|p: Position| #[trigger] index.contains_key(p) ==> entry_has_row(rows, index, p)
}

/// No key stands in two rows, within one table or across two.
pub open spec fn keys_unique(rows: spec_fn(Table) -> Seq<(u64, Position)>) -> bool {
    forall|t1: Table, i: int, t2: Table, j: int|
        #![trigger rows(t1)[i], rows(t2)[j]]
        0 <= i < rows(t1).len() && 0 <= j < rows(t2).len() && table_kind(t1) == table_kind(t2)
            && rows(t1)[i].0 == rows(t2)[j].0 ==> t1 == t2 && i == j
}

/// Every uid in a table was handed out before `next`.
pub open spec fn uids_below(rows: spec_fn(Table) -> Seq<(u64, Position)>, next: u64) -> bool {
    forall|t: Table, i: int| #![trigger rows(t)[i]] 0 <= i < rows(t).len() ==> rows(t)[i].0 < next
}

/// The index and the tables agree: each row is indexed once at its
/// position, each index entry is a row, and keys are unique and fresh
/// with respect to the id allocator.
pub open spec fn placement_inv(
    rows: spec_fn(Table) -> Seq<(u64, Position)>,
    index: Map<Position, EntityKey>,
    next: u64,
) -> bool {
    &&& rows_indexed(rows, index)
    &&& entries_have_rows(rows, index)
    &&& keys_unique(rows)
    &&& uids_below(rows, next)
}

/// Two rows at one position are the same row.
pub proof fn lemma_one_row_per_position(
    rows: spec_fn(Table) -> Seq<(u64, Position)>,
    index: Map<Position, EntityKey>,
    next: u64,
    t1: Table,
    i: int,
    t2: Table,
    j: int,
)
    requires
        placement_inv(rows, index, next),
        0 <= i < rows(t1).len(),
        0 <= j < rows(t2).len(),
        rows(t1)[i].1 == rows(t2)[j].1,
    ensures
        t1 == t2 && i == j,
{
    assert(index[rows(t1)[i].1] == key_of(t1, rows(t1)[i].0));
    assert(index[rows(t2)[j].1] == key_of(t2, rows(t2)[j].0));
}

/// Adding a row under a fresh uid at a free position, and indexing it there.
pub proof fn lemma_place(
    rows: spec_fn(Table) -> Seq<(u64, Position)>,
    rows2: spec_fn(Table) -> Seq<(u64, Position)>,
    index: Map<Position, EntityKey>,
    next: u64,
    t0: Table,
    p: Position,
)
    requires
        placement_inv(rows, index, next),
        !index.contains_key(p),
        next < u64::MAX,
        rows2(t0) == rows(t0).push((next, p)),
        forall|t: Table| t != t0 ==> #[trigger] rows2(t) == rows(t),
    ensures
        placement_inv(rows2, index.insert(p, key_of(t0, next)), (next + 1) as u64),
{
    let index2 = index.insert(p, key_of(t0, next));
    let n0 = rows(t0).len() as int;
    assert forall|t: Table, i: int| 0 <= i < rows2(t).len() implies #[trigger] rows2(t)[i]
        == if t == t0 && i == n0 {
        (next, p)
    } else {
        rows(t)[i]
    } by {}
    assert forall|t: Table, i: int| #![trigger rows2(t)[i]] 0 <= i < rows2(t).len() implies index2.contains_key(
        rows2(t)[i].1,
    ) && index2[rows2(t)[i].1] == key_of(t, rows2(t)[i].0) by {
        if !(t == t0 && i == n0) {
            assert(rows(t)[i] == rows2(t)[i]);
        }
    }
    assert forall|q: Position| #[trigger] index2.contains_key(q) implies entry_has_row(
        rows2,
        index2,
        q,
    ) by {
        if q == p {
            assert(rows2(t0)[n0] == (next, p));
        } else {
            assert(entry_has_row(rows, index, q));
            let (t, i) = choose|t: Table, i: int|
                #![trigger rows(t)[i]]
                0 <= i < rows(t).len() && table_kind(t) == index[q].entity_type && rows(t)[i] == (
                    index[q].uid,
                    q,
                );
            assert(rows2(t)[i] == rows(t)[i]);
        }
    }
    assert forall|t1: Table, i: int, t2: Table, j: int|
        #![trigger rows2(t1)[i], rows2(t2)[j]]
        0 <= i < rows2(t1).len() && 0 <= j < rows2(t2).len() && table_kind(t1) == table_kind(t2)
            && rows2(t1)[i].0 == rows2(t2)[j].0 implies t1 == t2 && i == j by {
        if !(t1 == t0 && i == n0) {
            assert(rows(t1)[i] == rows2(t1)[i]);
        }
        if !(t2 == t0 && j == n0) {
            assert(rows(t2)[j] == rows2(t2)[j]);
        }
    }
    assert forall|t: Table, i: int| #![trigger rows2(t)[i]] 0 <= i < rows2(t).len() implies rows2(t)[i].0
        < (next + 1) as u64 by {
        if !(t == t0 && i == n0) {
            assert(rows(t)[i] == rows2(t)[i]);
        }
    }
}

/// Taking row `i0` out of table `t0`, and its entry out of the index.
pub proof fn lemma_unplace(
    rows: spec_fn(Table) -> Seq<(u64, Position)>,
    rows2: spec_fn(Table) -> Seq<(u64, Position)>,
    index: Map<Position, EntityKey>,
    next: u64,
    t0: Table,
    i0: int,
)
    requires
        placement_inv(rows, index, next),
        0 <= i0 < rows(t0).len(),
        rows2(t0) == rows(t0).remove(i0),
        forall|t: Table| t != t0 ==> #[trigger] rows2(t) == rows(t),
    ensures
        placement_inv(rows2, index.remove(rows(t0)[i0].1), next),
{
    let p0 = rows(t0)[i0].1;
    let index2 = index.remove(p0);
    // the old place of each new row
    assert forall|t: Table, i: int| 0 <= i < rows2(t).len() implies #[trigger] rows2(t)[i]
        == if t == t0 && i >= i0 {
        rows(t)[i + 1]
    } else {
        rows(t)[i]
    } by {}
    assert forall|t: Table, i: int| #![trigger rows2(t)[i]] 0 <= i < rows2(t).len() implies index2.contains_key(
        rows2(t)[i].1,
    ) && index2[rows2(t)[i].1] == key_of(t, rows2(t)[i].0) by {
        let k = if t == t0 && i >= i0 {
            i + 1
        } else {
            i
        };
        assert(rows2(t)[i] == rows(t)[k]);
        assert(rows(t)[k] == rows(t)[k]);
        if rows(t)[k].1 == p0 {
            lemma_one_row_per_position(rows, index, next, t, k, t0, i0);
        }
    }
    assert forall|q: Position| #[trigger] index2.contains_key(q) implies entry_has_row(
        rows2,
        index2,
        q,
    ) by {
        assert(index.contains_key(q));
        assert(entry_has_row(rows, index, q));
        let (t, i) = choose|t: Table, i: int|
            #![trigger rows(t)[i]]
            0 <= i < rows(t).len() && table_kind(t) == index[q].entity_type && rows(t)[i] == (
                index[q].uid,
                q,
            );
        if t == t0 {
            assert(i != i0);
            if i > i0 {
                assert(rows2(t)[i - 1] == rows(t)[i]);
            } else {
                assert(rows2(t)[i] == rows(t)[i]);
            }
        } else {
            assert(rows2(t)[i] == rows(t)[i]);
        }
    }
    assert forall|t1: Table, i: int, t2: Table, j: int|
        #![trigger rows2(t1)[i], rows2(t2)[j]]
        0 <= i < rows2(t1).len() && 0 <= j < rows2(t2).len() && table_kind(t1) == table_kind(t2)
            && rows2(t1)[i].0 == rows2(t2)[j].0 implies t1 == t2 && i == j by {
        let k1 = if t1 == t0 && i >= i0 {
            i + 1
        } else {
            i
        };
        let k2 = if t2 == t0 && j >= i0 {
            j + 1
        } else {
            j
        };
        assert(rows2(t1)[i] == rows(t1)[k1]);
        assert(rows2(t2)[j] == rows(t2)[k2]);
        assert(rows(t1)[k1] == rows(t1)[k1] && rows(t2)[k2] == rows(t2)[k2]);
    }
    assert forall|t: Table, i: int| #![trigger rows2(t)[i]] 0 <= i < rows2(t).len() implies rows2(t)[i].0
        < next by {
        let k = if t == t0 && i >= i0 {
            i + 1
        } else {
            i
        };
        assert(rows2(t)[i] == rows(t)[k]);
        assert(rows(t)[k] == rows(t)[k]);
    }
}

/// Moving row `i0` of table `t0` to a free position `q`, and its index entry
/// with it.
pub proof fn lemma_relocate(
    rows: spec_fn(Table) -> Seq<(u64, Position)>,
    rows2: spec_fn(Table) -> Seq<(u64, Position)>,
    index: Map<Position, EntityKey>,
    next: u64,
    t0: Table,
    i0: int,
    q: Position,
)
    requires
        placement_inv(rows, index, next),
        0 <= i0 < rows(t0).len(),
        !index.contains_key(q),
        rows2(t0) == rows(t0).update(i0, (rows(t0)[i0].0, q)),
        forall|t: Table| t != t0 ==> #[trigger] rows2(t) == rows(t),
    ensures
        placement_inv(
            rows2,
            index.remove(rows(t0)[i0].1).insert(q, key_of(t0, rows(t0)[i0].0)),
            next,
        ),
{
    let p0 = rows(t0)[i0].1;
    let u0 = rows(t0)[i0].0;
    let index2 = index.remove(p0).insert(q, key_of(t0, u0));
    assert(index[p0] == key_of(t0, u0));
    assert forall|t: Table, i: int| 0 <= i < rows2(t).len() implies #[trigger] rows2(t)[i]
        == if t == t0 && i == i0 {
        (u0, q)
    } else {
        rows(t)[i]
    } by {}
    assert forall|t: Table, i: int| #![trigger rows2(t)[i]] 0 <= i < rows2(t).len() implies index2.contains_key(
        rows2(t)[i].1,
    ) && index2[rows2(t)[i].1] == key_of(t, rows2(t)[i].0) by {
        if !(t == t0 && i == i0) {
            assert(rows2(t)[i] == rows(t)[i]);
            assert(rows(t)[i] == rows(t)[i]);
            if rows(t)[i].1 == p0 {
                lemma_one_row_per_position(rows, index, next, t, i, t0, i0);
            }
        }
    }
    assert forall|r: Position| #[trigger] index2.contains_key(r) implies entry_has_row(
        rows2,
        index2,
        r,
    ) by {
        if r == q {
            assert(rows2(t0)[i0] == (u0, q));
        } else {
            assert(index.contains_key(r));
            assert(entry_has_row(rows, index, r));
            let (t, i) = choose|t: Table, i: int|
                #![trigger rows(t)[i]]
                0 <= i < rows(t).len() && table_kind(t) == index[r].entity_type && rows(t)[i] == (
                    index[r].uid,
                    r,
                );
            assert(!(t == t0 && i == i0));
            assert(rows2(t)[i] == rows(t)[i]);
        }
    }
    assert forall|t1: Table, i: int, t2: Table, j: int|
        #![trigger rows2(t1)[i], rows2(t2)[j]]
        0 <= i < rows2(t1).len() && 0 <= j < rows2(t2).len() && table_kind(t1) == table_kind(t2)
            && rows2(t1)[i].0 == rows2(t2)[j].0 implies t1 == t2 && i == j by {
        assert(rows2(t1)[i].0 == rows(t1)[i].0);
        assert(rows2(t2)[j].0 == rows(t2)[j].0);
        assert(rows(t1)[i] == rows(t1)[i] && rows(t2)[j] == rows(t2)[j]);
    }
    assert forall|t: Table, i: int| #![trigger rows2(t)[i]] 0 <= i < rows2(t).len() implies rows2(t)[i].0
        < next by {
        assert(rows2(t)[i].0 == rows(t)[i].0);
        assert(rows(t)[i] == rows(t)[i]);
    }
}

} // verus!
