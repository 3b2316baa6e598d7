//! The canonical byte preimage that is hashed, with a salt, into a board
//! commitment.

use vstd::prelude::*;
use crate::fleet::{kind_count, one_of_each, Fleet};
use crate::ship::{kind_of_id, Orientation, Placement, ShipKind, NUM_SHIPS};

verus! {

/// The placements among the first `n` of `fs` whose ship has id `k`, in
/// their original order.
pub open spec fn with_id(fs: Seq<Placement>, k: int, n: int) -> Seq<Placement>
    decreases n,
{
    if n <= 0 {
        seq![]
    } else {
        with_id(fs, k, n - 1) + if fs[n - 1].ship.spec_id() == k {
            seq![fs[n - 1]]
        } else {
            seq![]
        }
    }
}

/// The placements of `fs` with ids below `m`, grouped by id in increasing
/// order, each group in its original order.
pub open spec fn grouped(fs: Seq<Placement>, m: int) -> Seq<Placement>
    decreases m,
{
    if m <= 0 {
        seq![]
    } else {
        grouped(fs, m - 1) + with_id(fs, m - 1, fs.len() as int)
    }
}

/// `fs` stably sorted by ship id.
pub open spec fn canonical_order(fs: Seq<Placement>) -> Seq<Placement> {
    grouped(fs, NUM_SHIPS as int)
}

/// The byte that encodes an orientation.
pub open spec fn orientation_byte(o: Orientation) -> u8 {
    match o {
        Orientation::Horizontal => 0,
        Orientation::Vertical => 1,
    }
}

/// The four bytes of one placement: ship id, row, column, orientation.
pub open spec fn encode_placement(p: Placement) -> Seq<u8> {
    seq![p.ship.spec_id(), p.row, p.col, orientation_byte(p.orientation)]
}

/// The encodings of `ps`, one after the other.
pub open spec fn encode_placements(ps: Seq<Placement>) -> Seq<u8>
    decreases ps.len(),
{
    if ps.len() == 0 {
        seq![]
    } else {
        encode_placements(ps.drop_last()) + encode_placement(ps.last())
    }
}

/// The commitment preimage of fleet `fs` under `salt`: the placements in
/// canonical order, four bytes each, followed by the salt.
pub open spec fn preimage(fs: Seq<Placement>, salt: Seq<u8>) -> Seq<u8> {
    encode_placements(canonical_order(fs)) + salt
}

/// `x` is one of the first `n` placements of `fs` and has id `k`.
spec fn member_of_prefix(fs: Seq<Placement>, k: int, n: int, x: Placement) -> bool {
    exists|a: int| 0 <= a < n && fs[a] == x && fs[a].ship.spec_id() == k
}

/// Each member of `with_id(fs, k, n)` is one of the first `n` placements
/// and has id `k`; each such placement is a member.
proof fn lemma_with_id_members(fs: Seq<Placement>, k: int, n: int)
    requires
        0 <= n <= fs.len(),
    ensures
        forall|j: int|
            0 <= j < with_id(fs, k, n).len() ==> #[trigger] member_of_prefix(fs, k, n, with_id(fs, k, n)[j]),
        forall|a: int| 0 <= a < n && fs[a].ship.spec_id() == k ==> with_id(fs, k, n).contains(#[trigger] fs[a]),
    decreases n,
{
    if n > 0 {
        lemma_with_id_members(fs, k, n - 1);
        let prev = with_id(fs, k, n - 1);
        let cur = with_id(fs, k, n);
        assert forall|j: int| 0 <= j < cur.len() implies #[trigger] member_of_prefix(fs, k, n, cur[j]) by {
            if j < prev.len() {
                assert(cur[j] == prev[j]);
                assert(member_of_prefix(fs, k, n - 1, prev[j]));
                let a = choose|a: int| 0 <= a < n - 1 && fs[a] == prev[j] && fs[a].ship.spec_id() == k;
                assert(cur[j] == fs[a]);
            } else {
                assert(cur[j] == fs[n - 1]);
            }
        }
        assert forall|a: int| 0 <= a < n && fs[a].ship.spec_id() == k implies cur.contains(#[trigger] fs[a]) by {
            if a < n - 1 {
                let j = choose|j: int| 0 <= j < prev.len() && prev[j] == fs[a];
                assert(cur[j] == fs[a]);
            } else {
                assert(cur[prev.len() as int] == fs[a]);
            }
        }
    }
}

/// The group of ship kind `kind` is as long as the number of such ships.
proof fn lemma_with_id_len(fs: Seq<Placement>, kind: ShipKind, n: int)
    requires
        0 <= n <= fs.len(),
    ensures
        with_id(fs, kind.spec_id() as int, n).len() == kind_count(fs, kind, n),
    decreases n,
{
    if n > 0 {
        lemma_with_id_len(fs, kind, n - 1);
    }
}

/// In two fleets that hold one ship of each kind and the same placements,
/// the placements with a given id coincide.
proof fn lemma_same_group(f1: Seq<Placement>, f2: Seq<Placement>, k: int)
    requires
        f1.len() == NUM_SHIPS,
        f2.len() == NUM_SHIPS,
        one_of_each(f1),
        one_of_each(f2),
        f1.to_multiset() =~= f2.to_multiset(),
        0 <= k < NUM_SHIPS,
    ensures
        with_id(f1, k, NUM_SHIPS as int) == with_id(f2, k, NUM_SHIPS as int),
{
    broadcast use vstd::seq_lib::group_to_multiset_ensures;

    let kind = kind_of_id(k as u8).unwrap();
    assert(kind.spec_id() == k);
    lemma_with_id_len(f1, kind, NUM_SHIPS as int);
    lemma_with_id_len(f2, kind, NUM_SHIPS as int);
    assert(kind_count(f1, kind, f1.len() as int) == 1);
    assert(kind_count(f2, kind, f2.len() as int) == 1);
    lemma_with_id_members(f1, k, NUM_SHIPS as int);
    lemma_with_id_members(f2, k, NUM_SHIPS as int);
    let w1 = with_id(f1, k, NUM_SHIPS as int);
    let w2 = with_id(f2, k, NUM_SHIPS as int);
    let x = w1[0];
    assert(member_of_prefix(f1, k, NUM_SHIPS as int, x));
    let a = choose|a: int| 0 <= a < NUM_SHIPS && f1[a] == x && f1[a].ship.spec_id() == k;
    assert(f1.contains(x));
    assert(f1.to_multiset().count(x) > 0);
    assert(f2.to_multiset().count(x) > 0);
    assert(f2.contains(x));
    let b = choose|b: int| 0 <= b < f2.len() && f2[b] == x;
    assert(w2.contains(f2[b]));
    assert(w1 =~= w2);
}

proof fn lemma_grouped_same(f1: Seq<Placement>, f2: Seq<Placement>, m: int)
    requires
        f1.len() == NUM_SHIPS,
        f2.len() == NUM_SHIPS,
        one_of_each(f1),
        one_of_each(f2),
        f1.to_multiset() =~= f2.to_multiset(),
        0 <= m <= NUM_SHIPS,
    ensures
        grouped(f1, m) == grouped(f2, m),
    decreases m,
{
    if m > 0 {
        lemma_grouped_same(f1, f2, m - 1);
        lemma_same_group(f1, f2, m - 1);
    }
}

/// Law: the commitment preimage does not depend on the order in which the
/// placements are listed. Two fleets with one ship of each kind that hold
/// the same placements, in any order, have the same preimage under the same
/// salt.
pub proof fn lemma_preimage_order_independent(f1: Fleet, f2: Fleet, salt: Seq<u8>)
    requires
        one_of_each(f1.placements@),
        one_of_each(f2.placements@),
        f1.placements@.to_multiset() =~= f2.placements@.to_multiset(),
    ensures
        preimage(f1.placements@, salt) == preimage(f2.placements@, salt),
{
    lemma_grouped_same(f1.placements@, f2.placements@, NUM_SHIPS as int);
}

proof fn lemma_encode_len(ps: Seq<Placement>)
    ensures
        encode_placements(ps).len() == 4 * ps.len(),
    decreases ps.len(),
{
    if ps.len() > 0 {
        lemma_encode_len(ps.drop_last());
    }
}

impl Fleet {
    /// Canonical byte preimage that is hashed (with the salt) into the
    /// commitment. Placements are sorted by ship id so the encoding does not
    /// depend on the order in which the placements were listed.
    pub fn digest_preimage(&self, salt: &[u8; 32]) -> (out: Vec<u8>)
        ensures
            out@ == preimage(self.placements@, salt@),
    {
        let ghost fs = self.placements@;
        // Stable sort by id: one pass over the placements per id.
        let mut sorted: Vec<Placement> = Vec::with_capacity(NUM_SHIPS);
        let mut k: u8 = 0;
        while k < NUM_SHIPS as u8
            invariant
                fs == self.placements@,
                fs.len() == NUM_SHIPS,
                k <= NUM_SHIPS,
                sorted@ == grouped(fs, k as int),
            decreases NUM_SHIPS - k,
        {
            let mut a: usize = 0;
            while a < NUM_SHIPS
                invariant
                    fs == self.placements@,
                    fs.len() == NUM_SHIPS,
                    k < NUM_SHIPS,
                    a <= NUM_SHIPS,
                    sorted@ == grouped(fs, k as int) + with_id(fs, k as int, a as int),
                decreases NUM_SHIPS - a,
            {
                let p = self.placements[a];
                assert(fs[a as int] == p);
                if p.ship.id() == k {
                    sorted.push(p);
                }
                proof {
                    assert(with_id(fs, k as int, a + 1) == with_id(fs, k as int, a as int) + if p.ship.spec_id() == k {
                        seq![p]
                    } else {
                        seq![]
                    });
                }
                assert(sorted@ =~= grouped(fs, k as int) + with_id(fs, k as int, a + 1));
                a = a + 1;
            }
            assert(sorted@ =~= grouped(fs, k + 1));
            k = k + 1;
        }

        let mut out: Vec<u8> = Vec::with_capacity(NUM_SHIPS * 4 + 32);
        let mut i: usize = 0;
        while i < sorted.len()
            invariant
                i <= sorted@.len(),
                out@ == encode_placements(sorted@.take(i as int)),
            decreases sorted@.len() - i,
        {
            let p = sorted[i];
            out.push(p.ship.id());
            out.push(p.row);
            out.push(p.col);
            out.push(
                match p.orientation {
                    Orientation::Horizontal => 0,
                    Orientation::Vertical => 1,
                },
            );
            assert(sorted@.take(i + 1).drop_last() =~= sorted@.take(i as int));
            assert(out@ =~= encode_placements(sorted@.take(i + 1)));
            i = i + 1;
        }
        assert(sorted@.take(sorted@.len() as int) =~= sorted@);
        let ghost body = out@;
        let mut j: usize = 0;
        while j < 32
            invariant
                j <= 32,
                salt@.len() == 32,
                out@ == body + salt@.take(j as int),
            decreases 32 - j,
        {
            out.push(salt[j]);
            assert(out@ =~= body + salt@.take(j + 1));
            j = j + 1;
        }
        assert(salt@.take(32) =~= salt@);
        out
    }
}

proof fn lemma_encode_injective(p1: Seq<Placement>, p2: Seq<Placement>)
    requires
        p1.len() == p2.len(),
        encode_placements(p1) == encode_placements(p2),
    ensures
        p1 == p2,
    decreases p1.len(),
{
    if p1.len() > 0 {
        let e1 = encode_placements(p1);
        let e2 = encode_placements(p2);
        lemma_encode_len(p1.drop_last());
        lemma_encode_len(p2.drop_last());
        let n = 4 * (p1.len() - 1);
        assert(e1.subrange(0, n) =~= encode_placements(p1.drop_last()));
        assert(e2.subrange(0, n) =~= encode_placements(p2.drop_last()));
        lemma_encode_injective(p1.drop_last(), p2.drop_last());
        let x = p1.last();
        let y = p2.last();
        assert(e1[n] == x.ship.spec_id() && e2[n] == y.ship.spec_id());
        assert(e1[n + 1] == x.row && e2[n + 1] == y.row);
        assert(e1[n + 2] == x.col && e2[n + 2] == y.col);
        assert(e1[n + 3] == orientation_byte(x.orientation) && e2[n + 3] == orientation_byte(y.orientation));
        assert(x.ship == y.ship);
        assert(x.orientation == y.orientation);
        assert(x == y);
        assert(p1 =~= p2.drop_last().push(y));
        assert(p2 =~= p2.drop_last().push(y));
    }
}

/// Law: a preimage determines what went into it. Equal preimages under
/// salts of equal length come from equal salts and from fleets whose
/// placements, in canonical order, are the same.
pub proof fn lemma_preimage_binding(f1: Fleet, f2: Fleet, s1: Seq<u8>, s2: Seq<u8>)
    requires
        s1.len() == s2.len(),
        preimage(f1.placements@, s1) == preimage(f2.placements@, s2),
    ensures
        s1 == s2,
        canonical_order(f1.placements@) == canonical_order(f2.placements@),
{
    let c1 = canonical_order(f1.placements@);
    let c2 = canonical_order(f2.placements@);
    lemma_encode_len(c1);
    lemma_encode_len(c2);
    let e1 = encode_placements(c1);
    let e2 = encode_placements(c2);
    let p = preimage(f1.placements@, s1);
    assert(p.len() == e1.len() + s1.len());
    assert(p.len() == e2.len() + s2.len());
    assert(p.subrange(0, e1.len() as int) =~= e1);
    assert(p.subrange(0, e2.len() as int) =~= e2);
    assert(p.subrange(e1.len() as int, p.len() as int) =~= s1);
    assert(p.subrange(e2.len() as int, p.len() as int) =~= s2);
    lemma_encode_injective(c1, c2);
}

/// The members of `grouped(fs, m)` are the placements of `fs` with ids
/// below `m`.
proof fn lemma_grouped_members(fs: Seq<Placement>, m: int)
    requires
        0 <= m,
    ensures
        forall|x: Placement| grouped(fs, m).contains(x) ==> fs.contains(x),
        forall|a: int|
            0 <= a < fs.len() && fs[a].ship.spec_id() < m ==> grouped(fs, m).contains(#[trigger] fs[a]),
    decreases m,
{
    if m > 0 {
        lemma_grouped_members(fs, m - 1);
        lemma_with_id_members(fs, m - 1, fs.len() as int);
        let prev = grouped(fs, m - 1);
        let w = with_id(fs, m - 1, fs.len() as int);
        let cur = grouped(fs, m);
        assert forall|x: Placement| cur.contains(x) implies fs.contains(x) by {
            let j = choose|j: int| 0 <= j < cur.len() && cur[j] == x;
            if j < prev.len() {
                assert(prev[j] == x);
                assert(prev.contains(x));
            } else {
                assert(w[j - prev.len()] == x);
                assert(member_of_prefix(fs, m - 1, fs.len() as int, w[j - prev.len()]));
                let a = choose|a: int| 0 <= a < fs.len() && fs[a] == x && fs[a].ship.spec_id() == m - 1;
                assert(fs[a] == x);
            }
        }
        assert forall|a: int| 0 <= a < fs.len() && fs[a].ship.spec_id() < m implies cur.contains(#[trigger] fs[a]) by {
            if fs[a].ship.spec_id() < m - 1 {
                let j = choose|j: int| 0 <= j < prev.len() && prev[j] == fs[a];
                assert(cur[j] == fs[a]);
            } else {
                assert(w.contains(fs[a]));
                let j = choose|j: int| 0 <= j < w.len() && w[j] == fs[a];
                assert(cur[prev.len() + j] == fs[a]);
            }
        }
    }
}

/// Law: different boards have different preimages. Equal preimages under
/// salts of equal length come from the same salt and from fleets made of
/// the same placements: each placement of either fleet is a placement of
/// the other.
pub proof fn lemma_preimage_determines_board(f1: Fleet, f2: Fleet, s1: Seq<u8>, s2: Seq<u8>)
    requires
        s1.len() == s2.len(),
        preimage(f1.placements@, s1) == preimage(f2.placements@, s2),
    ensures
        s1 == s2,
        forall|a: int| 0 <= a < NUM_SHIPS ==> f2.placements@.contains(#[trigger] f1.placements@[a]),
        forall|a: int| 0 <= a < NUM_SHIPS ==> f1.placements@.contains(#[trigger] f2.placements@[a]),
{
    lemma_preimage_binding(f1, f2, s1, s2);
    lemma_grouped_members(f1.placements@, NUM_SHIPS as int);
    lemma_grouped_members(f2.placements@, NUM_SHIPS as int);
    assert forall|a: int| 0 <= a < NUM_SHIPS implies f2.placements@.contains(#[trigger] f1.placements@[a]) by {
        assert(grouped(f1.placements@, NUM_SHIPS as int).contains(f1.placements@[a]));
    }
    assert forall|a: int| 0 <= a < NUM_SHIPS implies f1.placements@.contains(#[trigger] f2.placements@[a]) by {
        assert(grouped(f2.placements@, NUM_SHIPS as int).contains(f2.placements@[a]));
    }
}

proof fn lemma_kind_count_mono(fs: Seq<Placement>, k: ShipKind, m: int, n: int)
    requires
        0 <= m <= n <= fs.len(),
    ensures
        kind_count(fs, k, m) <= kind_count(fs, k, n),
    decreases n - m,
{
    if m < n {
        lemma_kind_count_mono(fs, k, m, n - 1);
    }
}

/// With one ship of each kind, no two slots hold the same placement.
proof fn lemma_one_of_each_distinct(fs: Seq<Placement>)
    requires
        fs.len() == NUM_SHIPS,
        one_of_each(fs),
    ensures
        fs.no_duplicates(),
{
    assert forall|a: int, b: int| 0 <= a < fs.len() && 0 <= b < fs.len() && a != b implies fs[a] != fs[b] by {
        if fs[a] == fs[b] {
            let (x, y) = if a < b { (a, b) } else { (b, a) };
            let k = fs[x].ship;
            lemma_kind_count_mono(fs, k, x + 1, y);
            lemma_kind_count_mono(fs, k, y + 1, fs.len() as int);
            assert(kind_count(fs, k, x + 1) >= 1);
            assert(kind_count(fs, k, y + 1) >= 2);
            assert(kind_count(fs, k, fs.len() as int) == 1);
        }
    }
}

proof fn lemma_grouped_len(fs: Seq<Placement>, m: int)
    requires
        fs.len() == NUM_SHIPS,
        one_of_each(fs),
        0 <= m <= NUM_SHIPS,
    ensures
        grouped(fs, m).len() == m,
        forall|k: int| 0 <= k < m ==> #[trigger] grouped(fs, m)[k] == with_id(fs, k, NUM_SHIPS as int)[0],
    decreases m,
{
    if m > 0 {
        lemma_grouped_len(fs, m - 1);
        let kind = kind_of_id((m - 1) as u8).unwrap();
        lemma_with_id_len(fs, kind, NUM_SHIPS as int);
        assert(kind_count(fs, kind, fs.len() as int) == 1);
        let prev = grouped(fs, m - 1);
        let cur = grouped(fs, m);
        assert forall|k: int| 0 <= k < m implies #[trigger] cur[k] == with_id(fs, k, NUM_SHIPS as int)[0] by {
            if k < m - 1 {
                assert(cur[k] == prev[k]);
            }
        }
    }
}

proof fn lemma_encode_at(ps: Seq<Placement>, k: int)
    requires
        0 <= k < ps.len(),
    ensures
        encode_placements(ps).len() == 4 * ps.len(),
        encode_placements(ps).subrange(4 * k, 4 * k + 4) == encode_placement(ps[k]),
    decreases ps.len(),
{
    lemma_encode_len(ps);
    lemma_encode_len(ps.drop_last());
    if k < ps.len() - 1 {
        lemma_encode_at(ps.drop_last(), k);
        assert(encode_placements(ps).subrange(4 * k, 4 * k + 4) =~= encode_placements(ps.drop_last()).subrange(
            4 * k,
            4 * k + 4,
        ));
    } else {
        assert(encode_placements(ps).subrange(4 * k, 4 * k + 4) =~= encode_placement(ps[k]));
    }
}

/// Law: the layout of the preimage of a fleet with one ship of each kind.
/// It is four bytes per ship followed by the salt; the four bytes at
/// `4 * id` encode the ship with that id as id, row, column and
/// orientation (0 horizontal, 1 vertical).
pub proof fn lemma_preimage_layout(f: Fleet, salt: Seq<u8>)
    requires
        one_of_each(f.placements@),
    ensures
        preimage(f.placements@, salt).len() == 4 * NUM_SHIPS + salt.len(),
        preimage(f.placements@, salt).subrange(4 * NUM_SHIPS as int, 4 * NUM_SHIPS + salt.len() as int) == salt,
        forall|a: int|
            0 <= a < NUM_SHIPS ==> preimage(f.placements@, salt).subrange(
                4 * (#[trigger] f.placements@[a]).ship.spec_id(),
                4 * f.placements@[a].ship.spec_id() + 4,
            ) == encode_placement(f.placements@[a]),
{
    let fs = f.placements@;
    let c = canonical_order(fs);
    lemma_grouped_len(fs, NUM_SHIPS as int);
    lemma_encode_len(c);
    let p = preimage(fs, salt);
    assert(p.subrange(20, 20 + salt.len() as int) =~= salt);
    assert forall|a: int| 0 <= a < NUM_SHIPS implies p.subrange(
        4 * (#[trigger] fs[a]).ship.spec_id(),
        4 * fs[a].ship.spec_id() + 4,
    ) == encode_placement(fs[a]) by {
        let k = fs[a].ship.spec_id() as int;
        lemma_with_id_members(fs, k, NUM_SHIPS as int);
        lemma_with_id_len(fs, fs[a].ship, NUM_SHIPS as int);
        assert(kind_count(fs, fs[a].ship, fs.len() as int) == 1);
        let w = with_id(fs, k, NUM_SHIPS as int);
        assert(w.contains(fs[a]));
        assert(w[0] == fs[a]);
        assert(c[k] == fs[a]);
        lemma_encode_at(c, k);
        assert(p.subrange(4 * k, 4 * k + 4) =~= encode_placements(c).subrange(4 * k, 4 * k + 4));
    }
}

/// Law: for fleets with one ship of each kind and salts of equal length,
/// the preimages are equal exactly when the salts are equal and the fleets
/// hold the same placements in some order.
pub proof fn lemma_preimage_equal_iff(f: Fleet, g: Fleet, s: Seq<u8>, t: Seq<u8>)
    requires
        one_of_each(f.placements@),
        one_of_each(g.placements@),
        s.len() == t.len(),
    ensures
        preimage(f.placements@, s) == preimage(g.placements@, t) <==> (s == t
            && f.placements@.to_multiset() == g.placements@.to_multiset()),
{
    broadcast use vstd::seq_lib::group_to_multiset_ensures;

    let fs = f.placements@;
    let gs = g.placements@;
    if preimage(fs, s) == preimage(gs, t) {
        lemma_preimage_determines_board(f, g, s, t);
        lemma_one_of_each_distinct(fs);
        lemma_one_of_each_distinct(gs);
        fs.lemma_multiset_has_no_duplicates();
        gs.lemma_multiset_has_no_duplicates();
        assert forall|x: Placement| fs.to_multiset().count(x) == gs.to_multiset().count(x) by {
            if fs.contains(x) {
                let a = choose|a: int| 0 <= a < fs.len() && fs[a] == x;
                assert(gs.contains(fs[a]));
                assert(fs.to_multiset().contains(x) && gs.to_multiset().contains(x));
            } else if gs.contains(x) {
                let b = choose|b: int| 0 <= b < gs.len() && gs[b] == x;
                assert(fs.contains(gs[b]));
            }
        }
        assert(fs.to_multiset() =~= gs.to_multiset());
    }
    if s == t && fs.to_multiset() == gs.to_multiset() {
        lemma_preimage_order_independent(f, g, s);
    }
}

} // verus!
