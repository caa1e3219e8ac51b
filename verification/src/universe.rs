use vstd::prelude::*;

use crate::records::{InstanceRecord, RecordModel};

verus! {

/// Whether some record in `s` carries the identity `id`.
pub open spec fn has_id(s: Seq<RecordModel>, id: Seq<char>) -> bool {
    exists|i: int| 0 <= i < s.len() && s[i].instance_id == Some(id)
}

/// The position of the first record in `s` carrying `id`, or `s.len()` when
/// none does.
pub open spec fn id_index(s: Seq<RecordModel>, id: Seq<char>) -> int
    decreases s.len(),
{
    if s.len() == 0 {
        0
    } else if s[0].instance_id == Some(id) {
        0
    } else {
        1 + id_index(s.drop_first(), id)
    }
}

/// `id_index` lies in `[0, s.len()]`, points at a record carrying `id` when
/// in range, and nothing before it carries `id`.
pub proof fn lemma_id_index(s: Seq<RecordModel>, id: Seq<char>)
    ensures
        0 <= id_index(s, id) <= s.len(),
        id_index(s, id) < s.len() ==> s[id_index(s, id)].instance_id == Some(id),
        forall|j: int| 0 <= j < id_index(s, id) ==> s[j].instance_id != Some(id),
        (id_index(s, id) < s.len()) <==> has_id(s, id),
    decreases s.len(),
{
    if s.len() == 0 {
    } else if s[0].instance_id == Some(id) {
    } else {
        lemma_id_index(s.drop_first(), id);
        assert forall|j: int| 0 <= j < id_index(s, id) implies s[j].instance_id != Some(id) by {
            if j > 0 {
                assert(s.drop_first()[j - 1] == s[j]);
            }
        }
        if has_id(s, id) {
            let w = choose|i: int| 0 <= i < s.len() && s[i].instance_id == Some(id);
            assert(s.drop_first()[w - 1] == s[w]);
            assert(has_id(s.drop_first(), id));
        }
        if has_id(s.drop_first(), id) {
            let w = choose|i: int|
                0 <= i < s.drop_first().len() && s.drop_first()[i].instance_id == Some(id);
            assert(s[w + 1] == s.drop_first()[w]);
            assert(has_id(s, id));
        }
    }
}

/// A scan that saw no record with `id` before position `k`, and one at `k`
/// (or ran off the end), has found `id_index`.
pub proof fn lemma_id_index_found(s: Seq<RecordModel>, id: Seq<char>, k: int)
    requires
        0 <= k <= s.len(),
        forall|j: int| 0 <= j < k ==> s[j].instance_id != Some(id),
        k < s.len() ==> s[k].instance_id == Some(id),
    ensures
        id_index(s, id) == k,
    decreases s.len(),
{
    if s.len() == 0 {
    } else if s[0].instance_id == Some(id) {
        assert(k == 0);
    } else {
        assert(k >= 1);
        assert forall|j: int| 0 <= j < k - 1 implies s.drop_first()[j].instance_id != Some(id) by {
            assert(s.drop_first()[j] == s[j + 1]);
        }
        lemma_id_index_found(s.drop_first(), id, k - 1);
    }
}

/// Well-formedness of a deduplicated record sequence: every record carries
/// an identity and no identity occurs twice.
pub open spec fn distinct_ids(s: Seq<RecordModel>) -> bool {
    (forall|i: int| 0 <= i < s.len() ==> s[i].instance_id is Some) && (forall|i: int, j: int|
        0 <= i < j < s.len() ==> s[i].instance_id != s[j].instance_id)
}

/// How one fetched record enters the universe: a record without an identity
/// is dropped; a known identity has its record overwritten in place; a new
/// identity is appended.
pub open spec fn universe_insert(s: Seq<RecordModel>, r: RecordModel) -> Seq<RecordModel> {
    match r.instance_id {
        None => s,
        Some(id) => if has_id(s, id) {
            s.update(id_index(s, id), r)
        } else {
            s.push(r)
        },
    }
}

/// The universe after the records `rs` entered in order.
pub open spec fn universe_insert_all(s: Seq<RecordModel>, rs: Seq<RecordModel>) -> Seq<RecordModel>
    decreases rs.len(),
{
    if rs.len() == 0 {
        s
    } else {
        universe_insert(universe_insert_all(s, rs.drop_last()), rs.last())
    }
}

/// The last record in `rs` carrying `id`; meaningful only when one does.
pub open spec fn last_with_id(rs: Seq<RecordModel>, id: Seq<char>) -> RecordModel
    decreases rs.len(),
{
    if rs.len() == 0 {
        arbitrary()
    } else if rs.last().instance_id == Some(id) {
        rs.last()
    } else {
        last_with_id(rs.drop_last(), id)
    }
}

/// What one insertion does, stated positionally: well-formedness is kept,
/// the inserted identity now maps to `r`, and every other identity keeps
/// the record it had.
proof fn lemma_insert_props(s: Seq<RecordModel>, r: RecordModel)
    requires
        distinct_ids(s),
    ensures
        distinct_ids(universe_insert(s, r)),
        forall|id: Seq<char>|
            has_id(universe_insert(s, r), id) <==> (has_id(s, id) || r.instance_id == Some(id)),
        forall|i: int|
            0 <= i < universe_insert(s, r).len() && r.instance_id is Some && universe_insert(
                s,
                r,
            )[i].instance_id == r.instance_id ==> universe_insert(s, r)[i] == r,
        forall|i: int, j: int|
            0 <= i < universe_insert(s, r).len() && 0 <= j < s.len() && universe_insert(
                s,
                r,
            )[i].instance_id == s[j].instance_id && universe_insert(s, r)[i].instance_id
                != r.instance_id ==> universe_insert(s, r)[i] == s[j],
{
    let t = universe_insert(s, r);
    match r.instance_id {
        None => {
            assert forall|i: int, j: int|
                0 <= i < t.len() && 0 <= j < s.len() && t[i].instance_id == s[j].instance_id
                    && t[i].instance_id != r.instance_id implies t[i] == s[j] by {
                if i != j {
                    assert(s[i].instance_id != s[j].instance_id);
                }
            }
        },
        Some(id) => {
            lemma_id_index(s, id);
            if has_id(s, id) {
                let k = id_index(s, id);
                assert(t == s.update(k, r));
                assert forall|i: int, j: int| 0 <= i < j < t.len() implies t[i].instance_id
                    != t[j].instance_id by {
                    if i != k && j != k {
                        assert(t[i] == s[i] && t[j] == s[j]);
                    } else if i == k {
                        assert(t[j] == s[j] && s[k].instance_id != s[j].instance_id);
                    } else {
                        assert(t[i] == s[i] && s[i].instance_id != s[k].instance_id);
                    }
                }
                assert forall|id2: Seq<char>| has_id(t, id2) implies (has_id(s, id2)
                    || r.instance_id == Some(id2)) by {
                    let w = choose|i: int| 0 <= i < t.len() && t[i].instance_id == Some(id2);
                    if w != k {
                        assert(s[w].instance_id == Some(id2));
                    }
                }
                assert forall|id2: Seq<char>| has_id(s, id2) || r.instance_id == Some(id2) implies
                    has_id(t, id2) by {
                    if r.instance_id == Some(id2) {
                        assert(t[k].instance_id == Some(id2));
                    } else {
                        let w = choose|i: int| 0 <= i < s.len() && s[i].instance_id == Some(id2);
                        if w == k {
                            assert(s[k].instance_id == Some(id));
                        } else {
                            assert(t[w].instance_id == Some(id2));
                        }
                    }
                }
                assert forall|i: int|
                    0 <= i < t.len() && t[i].instance_id == r.instance_id implies t[i] == r by {
                    if i != k {
                        assert(t[i] == s[i]);
                        assert(s[i].instance_id != s[k].instance_id);
                    }
                }
                assert forall|i: int, j: int|
                    0 <= i < t.len() && 0 <= j < s.len() && t[i].instance_id == s[j].instance_id
                        && t[i].instance_id != r.instance_id implies t[i] == s[j] by {
                    assert(i != k);
                    assert(t[i] == s[i]);
                    if i != j {
                        assert(s[i].instance_id != s[j].instance_id);
                    }
                }
            } else {
                assert(t == s.push(r));
                assert forall|i: int, j: int| 0 <= i < j < t.len() implies t[i].instance_id
                    != t[j].instance_id by {
                    if j == s.len() {
                        assert(t[i] == s[i]);
                        if s[i].instance_id == Some(id) {
                            assert(has_id(s, id));
                        }
                    } else {
                        assert(t[i] == s[i] && t[j] == s[j]);
                    }
                }
                assert forall|id2: Seq<char>| has_id(t, id2) implies (has_id(s, id2)
                    || r.instance_id == Some(id2)) by {
                    let w = choose|i: int| 0 <= i < t.len() && t[i].instance_id == Some(id2);
                    if w < s.len() {
                        assert(s[w].instance_id == Some(id2));
                    }
                }
                assert forall|id2: Seq<char>| has_id(s, id2) || r.instance_id == Some(id2) implies
                    has_id(t, id2) by {
                    if r.instance_id == Some(id2) {
                        assert(t[s.len() as int].instance_id == Some(id2));
                    } else {
                        let w = choose|i: int| 0 <= i < s.len() && s[i].instance_id == Some(id2);
                        assert(t[w].instance_id == Some(id2));
                    }
                }
                assert forall|i: int|
                    0 <= i < t.len() && t[i].instance_id == r.instance_id implies t[i] == r by {
                    if i < s.len() {
                        assert(s[i].instance_id == Some(id));
                        assert(has_id(s, id));
                    }
                }
            }
        },
    }
}

/// The aggregation law: feeding any record sequence `rs` into an empty
/// universe leaves exactly one record per identity that occurs in `rs`,
/// namely the last record in `rs` carrying that identity; records without
/// an identity are dropped.
pub proof fn lemma_dedup_last_write_wins(rs: Seq<RecordModel>)
    ensures
        distinct_ids(universe_insert_all(Seq::empty(), rs)),
        forall|id: Seq<char>|
            has_id(universe_insert_all(Seq::empty(), rs), id) <==> has_id(rs, id),
        forall|id: Seq<char>, i: int|
            0 <= i < universe_insert_all(Seq::empty(), rs).len() && universe_insert_all(
                Seq::empty(),
                rs,
            )[i].instance_id == Some(id) ==> universe_insert_all(Seq::empty(), rs)[i]
                == last_with_id(rs, id),
{
    lemma_insert_all_props(Seq::empty(), rs);
}

/// `lemma_dedup_last_write_wins`, generalised over the starting universe.
proof fn lemma_insert_all_props(s: Seq<RecordModel>, rs: Seq<RecordModel>)
    requires
        distinct_ids(s),
    ensures
        distinct_ids(universe_insert_all(s, rs)),
        forall|id: Seq<char>|
            has_id(universe_insert_all(s, rs), id) <==> (has_id(s, id) || has_id(rs, id)),
        forall|id: Seq<char>, i: int|
            0 <= i < universe_insert_all(s, rs).len() && universe_insert_all(s, rs)[i].instance_id
                == Some(id) && has_id(rs, id) ==> universe_insert_all(s, rs)[i] == last_with_id(
                rs,
                id,
            ),
        forall|id: Seq<char>, i: int, j: int|
            0 <= i < universe_insert_all(s, rs).len() && 0 <= j < s.len() && universe_insert_all(
                s,
                rs,
            )[i].instance_id == Some(id) && s[j].instance_id == Some(id) && !has_id(rs, id)
                ==> universe_insert_all(s, rs)[i] == s[j],
    decreases rs.len(),
{
    if rs.len() == 0 {
        assert forall|id: Seq<char>, i: int, j: int|
            0 <= i < s.len() && 0 <= j < s.len() && s[i].instance_id == Some(id) && s[j].instance_id
                == Some(id) implies s[i] == s[j] by {
            if i != j {
                assert(s[i].instance_id != s[j].instance_id);
            }
        }
    } else {
        let front = rs.drop_last();
        let last = rs.last();
        let mid = universe_insert_all(s, front);
        let t = universe_insert_all(s, rs);
        lemma_insert_all_props(s, front);
        lemma_insert_props(mid, last);
        assert(t == universe_insert(mid, last));
        assert forall|id: Seq<char>| has_id(rs, id) implies (has_id(front, id) || last.instance_id
            == Some(id)) by {
            let w = choose|i: int| 0 <= i < rs.len() && rs[i].instance_id == Some(id);
            if w < rs.len() - 1 {
                assert(front[w] == rs[w]);
                assert(has_id(front, id));
            }
        }
        assert forall|id: Seq<char>| has_id(front, id) || last.instance_id == Some(id) implies
            has_id(rs, id) by {
            if has_id(front, id) {
                let w = choose|i: int| 0 <= i < front.len() && front[i].instance_id == Some(id);
                assert(rs[w] == front[w]);
                assert(has_id(rs, id));
            } else {
                assert(rs[rs.len() - 1].instance_id == Some(id));
                assert(has_id(rs, id));
            }
        }
        assert forall|id: Seq<char>, i: int|
            0 <= i < t.len() && t[i].instance_id == Some(id) && has_id(rs, id) implies t[i]
            == last_with_id(rs, id) by {
            if last.instance_id == Some(id) {
                assert(t[i] == last);
                assert(last_with_id(rs, id) == last);
            } else {
                assert(last_with_id(rs, id) == last_with_id(front, id));
                assert(has_id(front, id));
                assert(has_id(mid, id));
                let j = choose|j: int| 0 <= j < mid.len() && mid[j].instance_id == Some(id);
                assert(t[i] == mid[j]);
                assert(mid[j] == last_with_id(front, id));
            }
        }
        assert forall|id: Seq<char>, i: int, j: int|
            0 <= i < t.len() && 0 <= j < s.len() && t[i].instance_id == Some(id) && s[j].instance_id
                == Some(id) && !has_id(rs, id) implies t[i] == s[j] by {
            assert(!has_id(front, id));
            assert(last.instance_id != Some(id));
            assert(has_id(mid, id) <==> (has_id(s, id) || has_id(front, id)));
            let w = choose|w: int| 0 <= w < mid.len() && mid[w].instance_id == Some(id);
            assert(t[i] == mid[w]);
            assert(mid[w] == s[j]);
        }
    }
}

/// The deduplicated union of every fetch: one record per instance identity,
/// the later fetch winning on a shared identity.  Iteration order is the
/// order in which identities first arrived, and it is the one order both
/// presentation and index resolution use.
pub struct Universe {
    records: Vec<InstanceRecord>,
}

impl View for Universe {
    type V = Seq<RecordModel>;

    closed spec fn view(&self) -> Seq<RecordModel> {
        self.records.deep_view()
    }
}

impl Universe {
    /// An empty universe.
    pub fn new() -> (u: Self)
        ensures
            u@ == Seq::<RecordModel>::empty(),
            distinct_ids(u@),
    {
        let u = Universe { records: Vec::new() };
        proof {
            assert(u@ =~= Seq::<RecordModel>::empty());
        }
        u
    }

    /// How many distinct instances the universe holds.
    pub fn count(&self) -> (n: usize)
        ensures
            n == self@.len(),
    {
        self.records.len()
    }

    /// Merges one fetched record in, identity deciding: no identity is
    /// dropped, a known identity is overwritten in place, a new one is
    /// appended.
    pub fn insert(&mut self, rec: InstanceRecord)
        requires
            distinct_ids(old(self)@),
        ensures
            final(self)@ == universe_insert(old(self)@, rec@),
            distinct_ids(final(self)@),
    {
        let ghost s0 = self@;
        match &rec.instance_id {
            None => {
                proof {
                    lemma_insert_props(s0, rec@);
                }
            },
            Some(id) => {
                let mut i: usize = 0;
                let n = self.records.len();
                while i < n
                    invariant
                        0 <= i <= n,
                        n == self.records.len(),
                        self@ == s0,
                        s0 == old(self)@,
                        distinct_ids(s0),
                        rec@.instance_id == Some(id@),
                        forall|j: int| 0 <= j < i ==> s0[j].instance_id != Some(id@),
                    decreases n - i,
                {
                    let matched = crate::records::opt_string_is(&self.records[i].instance_id, id);
                    proof {
                        assert(s0[i as int] == self.records@[i as int].deep_view());
                        assert(s0[i as int].instance_id == self.records@[
                            i as int
                        ].instance_id.deep_view());
                    }
                    if matched {
                        proof {
                            assert(s0[i as int].instance_id == Some(id@));
                            assert(has_id(s0, id@));
                            lemma_id_index_found(s0, id@, i as int);
                            lemma_insert_props(s0, rec@);
                        }
                        self.records.remove(i);
                        self.records.insert(i, rec);
                        proof {
                            assert(self@ =~= s0.update(i as int, rec@));
                        }
                        return;
                    }
                    i += 1;
                }
                proof {
                    assert(!has_id(s0, id@));
                    lemma_insert_props(s0, rec@);
                }
                self.records.push(rec);
                proof {
                    assert(self@ =~= s0.push(rec@));
                }
            },
        }
    }

    /// Merges a whole fetched batch in, in order.
    pub fn insert_batch(&mut self, recs: Vec<InstanceRecord>)
        requires
            distinct_ids(old(self)@),
        ensures
            final(self)@ == universe_insert_all(old(self)@, recs.deep_view()),
            distinct_ids(final(self)@),
    {
        let ghost s0 = self@;
        let ghost rs0 = recs.deep_view();
        let mut recs = recs;
        let ghost mut consumed: int = 0;
        proof {
            assert(rs0.take(0) =~= Seq::<RecordModel>::empty());
        }
        while recs.len() > 0
            invariant
                0 <= consumed <= rs0.len(),
                consumed == rs0.len() - recs.deep_view().len(),
                recs.deep_view() =~= rs0.skip(consumed),
                self@ == universe_insert_all(s0, rs0.take(consumed)),
                distinct_ids(self@),
            decreases recs.len(),
        {
            let ghost pre = recs.deep_view();
            let ghost pre_vec = recs@;
            let r = recs.remove(0);
            let ghost rm = r.deep_view();
            proof {
                assert(rm == pre_vec[0].deep_view());
                assert(rm == pre[0]);
                assert(rm == rs0[consumed]);
                assert(recs@ =~= pre_vec.skip(1));
                assert forall|j: int| 0 <= j < recs.deep_view().len() implies recs.deep_view()[j]
                    == rs0.skip(consumed + 1)[j] by {
                    assert(recs@[j] == pre_vec[j + 1]);
                    assert(recs.deep_view()[j] == pre[j + 1]);
                }
                assert(recs.deep_view() =~= rs0.skip(consumed + 1));
            }
            let ghost mid = self@;
            self.insert(r);
            proof {
                assert(rs0.take(consumed + 1).drop_last() =~= rs0.take(consumed));
                assert(rs0.take(consumed + 1).last() == rs0[consumed]);
                assert(self@ == universe_insert_all(s0, rs0.take(consumed + 1)));
                consumed = consumed + 1;
            }
        }
        proof {
            assert(rs0.take(rs0.len() as int) =~= rs0);
        }
    }

    /// Hands the records out as the one ordered snapshot that both line
    /// rendering and index resolution must share.
    pub fn into_table(self) -> (t: Vec<InstanceRecord>)
        ensures
            t.deep_view() == self@,
    {
        self.records
    }
}

/// The records of every fetch, concatenated in fetch order.
pub open spec fn concat_batches(bs: Seq<Seq<RecordModel>>) -> Seq<RecordModel>
    decreases bs.len(),
{
    if bs.len() == 0 {
        Seq::empty()
    } else {
        concat_batches(bs.drop_last()) + bs.last()
    }
}

/// Inserting a concatenation is inserting its parts in turn.
proof fn lemma_insert_all_append(s: Seq<RecordModel>, a: Seq<RecordModel>, b: Seq<RecordModel>)
    ensures
        universe_insert_all(s, a + b) == universe_insert_all(universe_insert_all(s, a), b),
    decreases b.len(),
{
    if b.len() == 0 {
        assert(a + b =~= a);
    } else {
        assert((a + b).drop_last() =~= a + b.drop_last());
        assert((a + b).last() == b.last());
        lemma_insert_all_append(s, a, b.drop_last());
    }
}

/// Builds the instance universe out of every fetch's record list, merged in
/// fetch order: the deduplicated union, later fetches winning on a shared
/// identity.
pub fn build_universe(batches: Vec<Vec<InstanceRecord>>) -> (u: Universe)
    ensures
        u@ == universe_insert_all(Seq::empty(), concat_batches(batches.deep_view())),
        distinct_ids(u@),
{
    let ghost bs0 = batches.deep_view();
    let mut batches = batches;
    let mut u = Universe::new();
    let ghost mut consumed: int = 0;
    proof {
        assert(bs0.take(0) =~= Seq::<Seq<RecordModel>>::empty());
        assert(concat_batches(bs0.take(0)) =~= Seq::<RecordModel>::empty());
        assert(u@ == universe_insert_all(Seq::empty(), concat_batches(bs0.take(0))));
    }
    while batches.len() > 0
        invariant
            0 <= consumed <= bs0.len(),
            consumed == bs0.len() - batches.deep_view().len(),
            batches.deep_view() =~= bs0.skip(consumed),
            u@ == universe_insert_all(Seq::empty(), concat_batches(bs0.take(consumed))),
            distinct_ids(u@),
        decreases batches.len(),
    {
        let ghost pre = batches.deep_view();
        let ghost pre_vec = batches@;
        let batch = batches.remove(0);
        let ghost bm = batch.deep_view();
        proof {
            assert(bm == pre_vec[0].deep_view());
            assert(bm == pre[0]);
            assert(bm == bs0[consumed]);
            assert(batches@ =~= pre_vec.skip(1));
            assert forall|j: int| 0 <= j < batches.deep_view().len() implies batches.deep_view()[j]
                == bs0.skip(consumed + 1)[j] by {
                assert(batches@[j] == pre_vec[j + 1]);
                assert(batches.deep_view()[j] == pre[j + 1]);
            }
            assert(batches.deep_view() =~= bs0.skip(consumed + 1));
        }
        u.insert_batch(batch);
        proof {
            assert(bs0.take(consumed + 1).drop_last() =~= bs0.take(consumed));
            assert(bs0.take(consumed + 1).last() == bs0[consumed]);
            assert(concat_batches(bs0.take(consumed + 1)) == concat_batches(bs0.take(consumed))
                + bm);
            lemma_insert_all_append(Seq::empty(), concat_batches(bs0.take(consumed)), bm);
            consumed = consumed + 1;
        }
    }
    proof {
        assert(bs0.take(bs0.len() as int) =~= bs0);
    }
    u
}

} // verus!
