use vstd::prelude::*;

use crate::vertex::Vertex;

verus! {

/// A commit: its identity, its ordered parents and its opaque serialized text.
pub struct CommitRecord {
    pub vertex: Vertex,
    pub parents: Vec<Vertex>,
    pub raw_text: Vec<u8>,
}

/// The mathematical value of a commit record.
pub struct RecordView {
    pub vertex: Seq<u8>,
    pub parents: Seq<Seq<u8>>,
    pub raw_text: Seq<u8>,
}

pub open spec fn vertices_view(vs: Seq<Vertex>) -> Seq<Seq<u8>> {
    vs.map_values(|v: Vertex| v@)
}

pub open spec fn records_view(rs: Seq<CommitRecord>) -> Seq<RecordView> {
    rs.map_values(|r: CommitRecord| r@)
}

impl View for CommitRecord {
    type V = RecordView;

    open spec fn view(&self) -> RecordView {
        RecordView {
            vertex: self.vertex@,
            parents: vertices_view(self.parents@),
            raw_text: self.raw_text@,
        }
    }
}

/// Why a store refused a change.
pub enum StoreError {
    /// `vertex` names `parent`, which is neither stored nor earlier in the batch.
    MissingParent { vertex: Vertex, parent: Vertex },
    /// The graph store has no integer ids left for the new vertices.
    IdsExhausted,
    /// The store holds no commit with this identity.
    NotFound(Vertex),
}

/// How the raw text of the commits is serialized; fixed when a store is made.
#[derive(Clone, Copy, Debug, PartialEq, Eq, Structural)]
pub enum SerializationFormat {
    Hg,
    Git,
}

/// A commit's identity and raw text, without its parents.
pub struct ParentlessCommit {
    pub vertex: Vertex,
    pub raw_text: Vec<u8>,
}

/// `v` is the identity of some record of `log`.
pub open spec fn has_vertex(log: Seq<RecordView>, v: Seq<u8>) -> bool {
    exists|i: int| 0 <= i < log.len() && log[i].vertex == v
}

/// The raw text that `log` holds for `v`.
pub open spec fn text_of(log: Seq<RecordView>, v: Seq<u8>) -> Option<Seq<u8>>
    decreases log.len(),
{
    if log.len() == 0 {
        None
    } else if log.last().vertex == v {
        Some(log.last().raw_text)
    } else {
        text_of(log.drop_last(), v)
    }
}

/// No vertex occurs twice.
pub open spec fn distinct_vertices(log: Seq<RecordView>) -> bool {
    forall|i: int, j: int|
        0 <= i < log.len() && 0 <= j < log.len() && i != j ==> log[i].vertex != log[j].vertex
}

/// Every parent of a record is the identity of an earlier record.
pub open spec fn parents_precede(log: Seq<RecordView>) -> bool {
    forall|i: int, k: int|
        0 <= i < log.len() && 0 <= k < log[i].parents.len() ==> has_vertex(
            log.take(i),
            #[trigger] log[i].parents[k],
        )
}

/// A well-formed history: identities are unique and parents come first.
pub open spec fn closed_history(log: Seq<RecordView>) -> bool {
    distinct_vertices(log) && parents_precede(log)
}

/// The log after appending `batch`, skipping each record whose vertex is already present.
pub open spec fn add_batch(log: Seq<RecordView>, batch: Seq<RecordView>) -> Seq<RecordView>
    decreases batch.len(),
{
    if batch.len() == 0 {
        log
    } else {
        let acc = add_batch(log, batch.drop_last());
        if has_vertex(acc, batch.last().vertex) {
            acc
        } else {
            acc.push(batch.last())
        }
    }
}

/// Record `i` of `batch` names `p` as a parent that neither `log` nor the records before it hold.
pub open spec fn dangling_parent(
    log: Seq<RecordView>,
    batch: Seq<RecordView>,
    i: int,
    p: Seq<u8>,
) -> bool {
    0 <= i < batch.len() && batch[i].parents.contains(p) && !has_vertex(
        add_batch(log, batch.take(i)),
        p,
    )
}

/// Parent `k` of record `i` is the first dangling parent of `batch`: no earlier record has
/// one, and no earlier parent of record `i` is one.
pub open spec fn first_dangling(log: Seq<RecordView>, batch: Seq<RecordView>, i: int, k: int) -> bool {
    &&& 0 <= i < batch.len()
    &&& 0 <= k < batch[i].parents.len()
    &&& dangling_parent(log, batch, i, batch[i].parents[k])
    &&& forall|i2: int, p: Seq<u8>| 0 <= i2 < i ==> !dangling_parent(log, batch, i2, p)
    &&& forall|k2: int| 0 <= k2 < k ==> !dangling_parent(log, batch, i, #[trigger] batch[i].parents[k2])
}

/// `e` names the first dangling parent of `batch` and the record that has it.
pub open spec fn reports_dangling(log: Seq<RecordView>, batch: Seq<RecordView>, e: StoreError) -> bool {
    match e {
        StoreError::MissingParent { vertex, parent } => exists|i: int, k: int|
            #[trigger] first_dangling(log, batch, i, k) && batch[i].vertex == vertex@
                && batch[i].parents[k] == parent@,
        _ => false,
    }
}

/// Every parent of every record of `batch` is known when that record is appended.
pub open spec fn batch_accepted(log: Seq<RecordView>, batch: Seq<RecordView>) -> bool {
    forall|i: int, p: Seq<u8>| !dangling_parent(log, batch, i, p)
}

/// A record is removed by a strip of `s` when it is in `s` or one of its parents was removed.
pub open spec fn strip_hits(removed: Set<Seq<u8>>, s: Seq<Seq<u8>>, r: RecordView) -> bool {
    s.contains(r.vertex) || exists|k: int|
        0 <= k < r.parents.len() && removed.contains(#[trigger] r.parents[k])
}

/// The vertices that a strip of `s` removes from `log`.
pub open spec fn stripped_set(log: Seq<RecordView>, s: Seq<Seq<u8>>) -> Set<Seq<u8>>
    decreases log.len(),
{
    if log.len() == 0 {
        Set::empty()
    } else {
        let prev = stripped_set(log.drop_last(), s);
        if strip_hits(prev, s, log.last()) {
            prev.insert(log.last().vertex)
        } else {
            prev
        }
    }
}

/// What a strip of `s` leaves of `log`, in order.
pub open spec fn strip_log(log: Seq<RecordView>, s: Seq<Seq<u8>>) -> Seq<RecordView>
    decreases log.len(),
{
    if log.len() == 0 {
        log
    } else {
        let prev = strip_log(log.drop_last(), s);
        if strip_hits(stripped_set(log.drop_last(), s), s, log.last()) {
            prev
        } else {
            prev.push(log.last())
        }
    }
}

impl CommitRecord {
    pub fn new(vertex: Vertex, parents: Vec<Vertex>, raw_text: Vec<u8>) -> (r: CommitRecord)
        ensures
            r.vertex@ == vertex@,
            r.parents@ == parents@,
            r.raw_text@ == raw_text@,
    {
        CommitRecord { vertex, parents, raw_text }
    }

    /// An independent copy of the record.
    pub fn duplicate(&self) -> (r: CommitRecord)
        ensures
            r@ == self@,
    {
        let mut parents: Vec<Vertex> = Vec::new();
        let mut i: usize = 0;
        while i < self.parents.len()
            invariant
                0 <= i <= self.parents.len(),
                parents.len() == i,
                forall|k: int| 0 <= k < i ==> parents@[k]@ == self.parents@[k]@,
            decreases self.parents.len() - i,
        {
            parents.push(self.parents[i].duplicate());
            i = i + 1;
        }
        assert(vertices_view(parents@) =~= vertices_view(self.parents@));
        CommitRecord {
            vertex: self.vertex.duplicate(),
            parents,
            raw_text: self.raw_text.clone(),
        }
    }
}

/// Whether `vs` holds `v`.
pub fn contains_vertex(vs: &Vec<Vertex>, v: &Vertex) -> (r: bool)
    ensures
        r == vertices_view(vs@).contains(v@),
{
    let mut i: usize = 0;
    while i < vs.len()
        invariant
            0 <= i <= vs.len(),
            forall|k: int| 0 <= k < i ==> vs@[k]@ != v@,
        decreases vs.len() - i,
    {
        if vs[i].same_as(v) {
            assert(vertices_view(vs@)[i as int] == v@);
            return true;
        }
        i = i + 1;
    }
    assert(!vertices_view(vs@).contains(v@)) by {
        if vertices_view(vs@).contains(v@) {
            let k = choose|k: int| 0 <= k < vs@.len() && vertices_view(vs@)[k] == v@;
            assert(vs@[k]@ == v@);
        }
    }
    false
}

/// The position of `v` in `log`, if it is there.
pub fn find_vertex(log: &Vec<CommitRecord>, v: &Vertex) -> (r: Option<usize>)
    ensures
        r is None <==> !has_vertex(records_view(log@), v@),
        r matches Some(i) ==> i < log.len() && log@[i as int].vertex@ == v@,
{
    let mut i: usize = 0;
    while i < log.len()
        invariant
            0 <= i <= log.len(),
            forall|k: int| 0 <= k < i ==> log@[k].vertex@ != v@,
        decreases log.len() - i,
    {
        if log[i].vertex.same_as(v) {
            assert(records_view(log@)[i as int].vertex == v@);
            return Some(i);
        }
        i = i + 1;
    }
    assert(!has_vertex(records_view(log@), v@)) by {
        if has_vertex(records_view(log@), v@) {
            let k = choose|k: int| 0 <= k < log@.len() && records_view(log@)[k].vertex == v@;
            assert(log@[k].vertex@ == v@);
        }
    }
    None
}

/// The vertices of the first `n` records of `batch`.
pub open spec fn batch_has(batch: Seq<RecordView>, n: int, v: Seq<u8>) -> bool {
    exists|j: int| 0 <= j < n && batch[j].vertex == v
}

pub proof fn lemma_add_batch_has(log: Seq<RecordView>, batch: Seq<RecordView>, v: Seq<u8>)
    ensures
        has_vertex(add_batch(log, batch), v) <==> (has_vertex(log, v) || batch_has(
            batch,
            batch.len() as int,
            v,
        )),
    decreases batch.len(),
{
    if batch.len() > 0 {
        let b0 = batch.drop_last();
        let acc = add_batch(log, b0);
        lemma_add_batch_has(log, b0, v);
        if batch_has(batch, batch.len() as int, v) && !batch_has(b0, b0.len() as int, v) {
            assert(batch.last().vertex == v) by {
                let j = choose|j: int| 0 <= j < batch.len() && batch[j].vertex == v;
                if j < b0.len() {
                    assert(b0[j].vertex == v);
                }
            }
        }
        if batch_has(b0, b0.len() as int, v) {
            let j = choose|j: int| 0 <= j < b0.len() && b0[j].vertex == v;
            assert(batch[j].vertex == v);
        }
        if !has_vertex(acc, batch.last().vertex) {
            let acc2 = acc.push(batch.last());
            assert(acc2[acc.len() as int].vertex == batch.last().vertex);
            if has_vertex(acc, v) {
                let j = choose|j: int| 0 <= j < acc.len() && acc[j].vertex == v;
                assert(acc2[j].vertex == v);
            }
            if has_vertex(acc2, v) && v != batch.last().vertex {
                let j = choose|j: int| 0 <= j < acc2.len() && acc2[j].vertex == v;
                assert(acc[j].vertex == v);
            }
        }
    }
}

/// Appending keeps what was there: the old log is a prefix of the new one.
pub proof fn lemma_add_batch_extends(log: Seq<RecordView>, batch: Seq<RecordView>)
    ensures
        add_batch(log, batch).len() >= log.len(),
        add_batch(log, batch).take(log.len() as int) == log,
    decreases batch.len(),
{
    if batch.len() > 0 {
        lemma_add_batch_extends(log, batch.drop_last());
        let acc = add_batch(log, batch.drop_last());
        assert(acc.push(batch.last()).take(log.len() as int) =~= acc.take(log.len() as int));
    }
}

/// Appends `batch` to `log` if every parent is known, skipping vertices already present.
pub fn append_batch(log: &mut Vec<CommitRecord>, batch: &Vec<CommitRecord>) -> (r: Result<
    (),
    StoreError,
>)
    ensures
        r is Ok <==> batch_accepted(records_view(old(log)@), records_view(batch@)),
        r is Ok ==> records_view(final(log)@) == add_batch(
            records_view(old(log)@),
            records_view(batch@),
        ),
        r is Err ==> final(log)@ == old(log)@,
        r matches Err(e) ==> reports_dangling(records_view(old(log)@), records_view(batch@), e),
{
    let ghost old_log = records_view(log@);
    let ghost b = records_view(batch@);
    let mut i: usize = 0;
    while i < batch.len()
        invariant
            0 <= i <= batch.len(),
            log@ == old(log)@,
            old_log == records_view(log@),
            b == records_view(batch@),
            forall|i2: int, p: Seq<u8>| 0 <= i2 < i ==> !dangling_parent(old_log, b, i2, p),
        decreases batch.len() - i,
    {
        let rec = &batch[i];
        let mut k: usize = 0;
        while k < rec.parents.len()
            invariant
                0 <= i < batch.len(),
                *rec == batch@[i as int],
                0 <= k <= rec.parents.len(),
                log@ == old(log)@,
                old_log == records_view(log@),
                b == records_view(batch@),
                forall|i2: int, p: Seq<u8>| 0 <= i2 < i ==> !dangling_parent(old_log, b, i2, p),
                forall|k2: int|
                    0 <= k2 < k ==> has_vertex(
                        add_batch(old_log, b.take(i as int)),
                        #[trigger] b[i as int].parents[k2],
                    ),
            decreases rec.parents.len() - k,
        {
            let p = &rec.parents[k];
            proof {
                lemma_add_batch_has(old_log, b.take(i as int), p@);
                assert(b[i as int].parents[k as int] == p@);
            }
            let mut known = find_vertex(log, p).is_some();
            let mut j: usize = 0;
            while j < i && !known
                invariant
                    0 <= j <= i < batch.len(),
                    b == records_view(batch@),
                    known ==> batch_has(b.take(i as int), i as int, p@) || has_vertex(old_log, p@),
                    !known ==> !has_vertex(old_log, p@) && !batch_has(b.take(i as int), j as int, p@),
                decreases i - j,
            {
                if batch[j].vertex.same_as(p) {
                    known = true;
                    assert(b.take(i as int)[j as int].vertex == p@);
                }
                j = j + 1;
            }
            if !known {
                proof {
                    assert(b[i as int].parents.contains(p@));
                    assert(dangling_parent(old_log, b, i as int, p@));
                }
                let vertex = rec.vertex.duplicate();
                let parent = p.duplicate();
                proof {
                    assert forall|k2: int| 0 <= k2 < k implies !dangling_parent(
                        old_log, b, i as int, #[trigger] b[i as int].parents[k2]) by {
                        assert(has_vertex(add_batch(old_log, b.take(i as int)), b[i as int].parents[k2]));
                    }
                    assert(first_dangling(old_log, b, i as int, k as int)
                        && b[i as int].vertex == vertex@ && b[i as int].parents[k as int] == parent@);
                }
                return Err(StoreError::MissingParent { vertex, parent });
            }
            k = k + 1;
        }
        proof {
            assert forall|p: Seq<u8>| !dangling_parent(old_log, b, i as int, p) by {
                if b[i as int].parents.contains(p) {
                    let k2 = choose|k2: int| 0 <= k2 < b[i as int].parents.len() && b[i as int].parents[k2] == p;
                    assert(has_vertex(add_batch(old_log, b.take(i as int)), b[i as int].parents[k2]));
                }
            }
        }
        i = i + 1;
    }
    let mut i: usize = 0;
    while i < batch.len()
        invariant
            0 <= i <= batch.len(),
            b == records_view(batch@),
            records_view(log@) == add_batch(old_log, b.take(i as int)),
        decreases batch.len() - i,
    {
        proof {
            assert(b.take(i + 1).drop_last() =~= b.take(i as int));
        }
        if find_vertex(log, &batch[i].vertex).is_none() {
            log.push(batch[i].duplicate());
            proof {
                assert(records_view(log@) =~= add_batch(old_log, b.take(i as int)).push(b[i as int]));
            }
        }
        i = i + 1;
    }
    proof {
        assert(b.take(i as int) =~= b);
    }
    Ok(())
}

/// Whether a strip of `s` removes `rec`, given the vertices removed before it.
pub(crate) fn hit_by_strip(removed: &Vec<Vertex>, s: &Vec<Vertex>, rec: &CommitRecord) -> (r: bool)
    ensures
        r == strip_hits(vertices_view(removed@).to_set(), vertices_view(s@), rec@),
{
    let ghost rm = vertices_view(removed@).to_set();
    if contains_vertex(s, &rec.vertex) {
        return true;
    }
    let mut k: usize = 0;
    while k < rec.parents.len()
        invariant
            0 <= k <= rec.parents.len(),
            rm == vertices_view(removed@).to_set(),
            forall|k2: int| 0 <= k2 < k ==> !rm.contains(#[trigger] rec@.parents[k2]),
        decreases rec.parents.len() - k,
    {
        if contains_vertex(removed, &rec.parents[k]) {
            assert(rm.contains(rec@.parents[k as int]));
            return true;
        }
        assert(!rm.contains(rec@.parents[k as int]));
        k = k + 1;
    }
    false
}

/// Removes from `log` the records of `s` and every record that descends from one of them.
/// Returns the removed vertices.
pub fn strip_records(log: &mut Vec<CommitRecord>, s: &Vec<Vertex>) -> (removed: Vec<Vertex>)
    ensures
        records_view(final(log)@) == strip_log(records_view(old(log)@), vertices_view(s@)),
        vertices_view(removed@).to_set() == stripped_set(
            records_view(old(log)@),
            vertices_view(s@),
        ),
{
    let ghost l = records_view(log@);
    let ghost sv = vertices_view(s@);
    let mut kept: Vec<CommitRecord> = Vec::new();
    let mut removed: Vec<Vertex> = Vec::new();
    let mut i: usize = 0;
    while i < log.len()
        invariant
            0 <= i <= log.len(),
            l == records_view(log@),
            sv == vertices_view(s@),
            records_view(kept@) == strip_log(l.take(i as int), sv),
            vertices_view(removed@).to_set() == stripped_set(l.take(i as int), sv),
        decreases log.len() - i,
    {
        proof {
            assert(l.take(i + 1).drop_last() =~= l.take(i as int));
            assert(l.take(i + 1).last() == l[i as int]);
        }
        if hit_by_strip(&removed, s, &log[i]) {
            let v = log[i].vertex.duplicate();
            let ghost before = vertices_view(removed@);
            removed.push(v);
            proof {
                assert(vertices_view(removed@) =~= before.push(v@));
                before.lemma_push_to_set_commute(v@);
            }
        } else {
            let ghost before = records_view(kept@);
            kept.push(log[i].duplicate());
            proof {
                assert(records_view(kept@) =~= before.push(l[i as int]));
            }
        }
        i = i + 1;
    }
    proof {
        assert(l.take(i as int) =~= l);
    }
    *log = kept;
    removed
}

/// What a strip leaves holds no vertex of the stripped set.
pub proof fn lemma_strip_excludes(log: Seq<RecordView>, s: Seq<Seq<u8>>, v: Seq<u8>)
    requires
        s.contains(v),
    ensures
        !has_vertex(strip_log(log, s), v),
    decreases log.len(),
{
    if log.len() > 0 {
        lemma_strip_excludes(log.drop_last(), s, v);
        let prev = strip_log(log.drop_last(), s);
        if !strip_hits(stripped_set(log.drop_last(), s), s, log.last()) {
            let now = prev.push(log.last());
            if has_vertex(now, v) {
                let j = choose|j: int| 0 <= j < now.len() && now[j].vertex == v;
                if j < prev.len() {
                    assert(prev[j].vertex == v);
                }
            }
        }
    }
}

/// The raw text that `log` holds for `v`, looked up from the newest record back.
pub fn lookup_text(log: &Vec<CommitRecord>, v: &Vertex) -> (r: Option<Vec<u8>>)
    ensures
        match r {
            Some(t) => text_of(records_view(log@), v@) == Some(t@),
            None => text_of(records_view(log@), v@) is None,
        },
{
    let ghost l = records_view(log@);
    let mut i: usize = log.len();
    assert(l.take(i as int) =~= l);
    while i > 0
        invariant
            0 <= i <= log.len(),
            l == records_view(log@),
            text_of(l, v@) == text_of(l.take(i as int), v@),
        decreases i,
    {
        proof {
            assert(l.take(i as int).drop_last() =~= l.take(i - 1));
        }
        if log[i - 1].vertex.same_as(v) {
            return Some(log[i - 1].raw_text.clone());
        }
        i = i - 1;
    }
    None
}

/// A vertex of `s` that `log` holds is removed by the strip.
pub proof fn lemma_stripped_covers(log: Seq<RecordView>, s: Seq<Seq<u8>>, v: Seq<u8>)
    requires
        has_vertex(log, v),
        s.contains(v),
    ensures
        stripped_set(log, s).contains(v),
    decreases log.len(),
{
    let prev = log.drop_last();
    if log.last().vertex != v {
        let j = choose|j: int| 0 <= j < log.len() && log[j].vertex == v;
        assert(prev[j].vertex == v);
        lemma_stripped_covers(prev, s, v);
    }
}

/// A vertex of `log` that the strip does not remove stays.
pub proof fn lemma_strip_keeps(log: Seq<RecordView>, s: Seq<Seq<u8>>, v: Seq<u8>)
    requires
        has_vertex(log, v),
        !stripped_set(log, s).contains(v),
    ensures
        has_vertex(strip_log(log, s), v),
    decreases log.len(),
{
    let prev = log.drop_last();
    let kept = strip_log(prev, s);
    if log.last().vertex == v {
        assert(!strip_hits(stripped_set(prev, s), s, log.last()));
        assert(kept.push(log.last())[kept.len() as int].vertex == v);
    } else {
        let j = choose|j: int| 0 <= j < log.len() && log[j].vertex == v;
        assert(prev[j].vertex == v);
        lemma_strip_keeps(prev, s, v);
        let k = choose|k: int| 0 <= k < kept.len() && kept[k].vertex == v;
        assert(kept.push(log.last())[k].vertex == v);
    }
}

/// Everything a strip leaves was there before.
pub proof fn lemma_strip_within(log: Seq<RecordView>, s: Seq<Seq<u8>>, v: Seq<u8>)
    requires
        has_vertex(strip_log(log, s), v),
    ensures
        has_vertex(log, v),
    decreases log.len(),
{
    let prev = log.drop_last();
    let kept = strip_log(prev, s);
    let k = choose|k: int| 0 <= k < strip_log(log, s).len() && strip_log(log, s)[k].vertex == v;
    if k < kept.len() {
        assert(kept[k].vertex == v);
        lemma_strip_within(prev, s, v);
        let j = choose|j: int| 0 <= j < prev.len() && prev[j].vertex == v;
        assert(log[j].vertex == v);
    } else {
        assert(log[log.len() - 1].vertex == v);
    }
}

/// A log has a text for exactly the vertices it holds.
pub proof fn lemma_text_iff_has(log: Seq<RecordView>, v: Seq<u8>)
    ensures
        text_of(log, v) is Some <==> has_vertex(log, v),
    decreases log.len(),
{
    if log.len() > 0 {
        let prev = log.drop_last();
        lemma_text_iff_has(prev, v);
        if has_vertex(prev, v) {
            let j = choose|j: int| 0 <= j < prev.len() && prev[j].vertex == v;
            assert(log[j].vertex == v);
        }
        if has_vertex(log, v) && log.last().vertex != v {
            let j = choose|j: int| 0 <= j < log.len() && log[j].vertex == v;
            assert(prev[j].vertex == v);
        }
    }
}

/// A new vertex that occurs once in a batch reads back as that record's text.
pub proof fn lemma_text_after_add(log: Seq<RecordView>, batch: Seq<RecordView>, i: int)
    requires
        0 <= i < batch.len(),
        !has_vertex(log, batch[i].vertex),
        forall|k: int| 0 <= k < batch.len() && k != i ==> batch[k].vertex != batch[i].vertex,
    ensures
        text_of(add_batch(log, batch), batch[i].vertex) == Some(batch[i].raw_text),
    decreases batch.len(),
{
    let prev = batch.drop_last();
    let acc = add_batch(log, prev);
    let v = batch[i].vertex;
    if i == batch.len() - 1 {
        lemma_add_batch_has(log, prev, v);
        if batch_has(prev, prev.len() as int, v) {
            let j = choose|j: int| 0 <= j < prev.len() && prev[j].vertex == v;
            assert(batch[j].vertex == v);
        }
    } else {
        assert forall|k: int| 0 <= k < prev.len() && k != i implies prev[k].vertex != prev[i].vertex by {
            assert(batch[k].vertex != batch[i].vertex);
        }
        lemma_text_after_add(log, prev, i);
        assert(batch.last().vertex != v);
        assert(prev[i] == batch[i]);
        assert(acc.push(batch.last()).drop_last() =~= acc);
    }
}

/// Appending skips known vertices, so identities stay unique.
pub proof fn lemma_add_batch_distinct(log: Seq<RecordView>, batch: Seq<RecordView>)
    requires
        distinct_vertices(log),
    ensures
        distinct_vertices(add_batch(log, batch)),
    decreases batch.len(),
{
    if batch.len() > 0 {
        let acc = add_batch(log, batch.drop_last());
        lemma_add_batch_distinct(log, batch.drop_last());
        if !has_vertex(acc, batch.last().vertex) {
            let now = acc.push(batch.last());
            assert forall|i: int, j: int|
                0 <= i < now.len() && 0 <= j < now.len() && i != j implies now[i].vertex != now[j].vertex by {
                if i == acc.len() {
                    assert(acc[j].vertex == now[j].vertex);
                } else if j == acc.len() {
                    assert(acc[i].vertex == now[i].vertex);
                }
            }
        }
    }
}

/// A strip keeps identities unique.
pub proof fn lemma_strip_distinct(log: Seq<RecordView>, s: Seq<Seq<u8>>)
    requires
        distinct_vertices(log),
    ensures
        distinct_vertices(strip_log(log, s)),
    decreases log.len(),
{
    if log.len() > 0 {
        let prev = log.drop_last();
        assert(distinct_vertices(prev)) by {
            assert forall|i: int, j: int|
                0 <= i < prev.len() && 0 <= j < prev.len() && i != j implies prev[i].vertex != prev[j].vertex by {
                assert(log[i] == prev[i] && log[j] == prev[j]);
            }
        }
        lemma_strip_distinct(prev, s);
        let kept = strip_log(prev, s);
        if !strip_hits(stripped_set(prev, s), s, log.last()) {
            let x = log.last().vertex;
            if has_vertex(kept, x) {
                lemma_strip_within(prev, s, x);
                let j = choose|j: int| 0 <= j < prev.len() && prev[j].vertex == x;
                assert(log[j].vertex == x);
            }
            let now = kept.push(log.last());
            assert forall|i: int, j: int|
                0 <= i < now.len() && 0 <= j < now.len() && i != j implies now[i].vertex != now[j].vertex by {
                if i == kept.len() {
                    assert(kept[j].vertex == now[j].vertex);
                } else if j == kept.len() {
                    assert(kept[i].vertex == now[i].vertex);
                }
            }
        }
    }
}

/// An accepted batch leaves every parent before its children.
pub proof fn lemma_add_batch_parents(log: Seq<RecordView>, batch: Seq<RecordView>)
    requires
        parents_precede(log),
        batch_accepted(log, batch),
    ensures
        parents_precede(add_batch(log, batch)),
    decreases batch.len(),
{
    if batch.len() > 0 {
        let prev = batch.drop_last();
        assert(batch_accepted(log, prev)) by {
            assert forall|i: int, p: Seq<u8>| !dangling_parent(log, prev, i, p) by {
                if 0 <= i < prev.len() {
                    assert(prev.take(i) =~= batch.take(i));
                    assert(!dangling_parent(log, batch, i, p));
                }
            }
        }
        lemma_add_batch_parents(log, prev);
        let acc = add_batch(log, prev);
        let last = batch.last();
        if !has_vertex(acc, last.vertex) {
            let now = acc.push(last);
            assert(now.take(acc.len() as int) =~= acc);
            assert(batch.take(batch.len() - 1) =~= prev);
            assert forall|i: int, k: int|
                0 <= i < now.len() && 0 <= k < now[i].parents.len() implies has_vertex(
                now.take(i),
                #[trigger] now[i].parents[k],
            ) by {
                if i == acc.len() {
                    assert(!dangling_parent(log, batch, batch.len() - 1, last.parents[k]));
                    assert(last.parents.contains(last.parents[k]));
                } else {
                    assert(now.take(i) =~= acc.take(i));
                    assert(now[i] == acc[i]);
                }
            }
        }
    }
}

/// A strip leaves every parent before its children.
pub proof fn lemma_strip_parents(log: Seq<RecordView>, s: Seq<Seq<u8>>)
    requires
        parents_precede(log),
    ensures
        parents_precede(strip_log(log, s)),
    decreases log.len(),
{
    if log.len() > 0 {
        let prev = log.drop_last();
        assert(parents_precede(prev)) by {
            assert forall|i: int, k: int|
                0 <= i < prev.len() && 0 <= k < prev[i].parents.len() implies has_vertex(
                prev.take(i),
                #[trigger] prev[i].parents[k],
            ) by {
                assert(prev.take(i) =~= log.take(i));
                assert(prev[i] == log[i]);
            }
        }
        lemma_strip_parents(prev, s);
        let kept = strip_log(prev, s);
        let last = log.last();
        if !strip_hits(stripped_set(prev, s), s, last) {
            let now = kept.push(last);
            assert(now.take(kept.len() as int) =~= kept);
            assert(log.take(log.len() - 1) =~= prev);
            assert forall|i: int, k: int|
                0 <= i < now.len() && 0 <= k < now[i].parents.len() implies has_vertex(
                now.take(i),
                #[trigger] now[i].parents[k],
            ) by {
                if i == kept.len() {
                    let p = last.parents[k];
                    assert(has_vertex(log.take(log.len() - 1), log[log.len() - 1].parents[k]));
                    assert(!stripped_set(prev, s).contains(p));
                    lemma_strip_keeps(prev, s, p);
                } else {
                    assert(now.take(i) =~= kept.take(i));
                    assert(now[i] == kept[i]);
                }
            }
        }
    }
}

/// A batch whose parents come before their children is accepted by any log.
pub proof fn lemma_closed_batch_accepted(log: Seq<RecordView>, batch: Seq<RecordView>)
    requires
        parents_precede(batch),
    ensures
        batch_accepted(log, batch),
{
    assert forall|i: int, p: Seq<u8>| !dangling_parent(log, batch, i, p) by {
        if 0 <= i < batch.len() && batch[i].parents.contains(p) {
            let k = choose|k: int| 0 <= k < batch[i].parents.len() && batch[i].parents[k] == p;
            assert(has_vertex(batch.take(i), batch[i].parents[k]));
            let j = choose|j: int| 0 <= j < batch.take(i).len() && batch.take(i)[j].vertex == p;
            assert(batch.take(i)[j].vertex == p);
            lemma_add_batch_has(log, batch.take(i), p);
        }
    }
}

} // verus!
