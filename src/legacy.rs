use vstd::prelude::*;

use crate::history::{
    closed_history, lemma_add_batch_distinct, lemma_add_batch_parents, lemma_strip_distinct,
    lemma_strip_parents,
    append_batch, add_batch, batch_accepted, lookup_text, records_view, reports_dangling,
    strip_log, strip_records, stripped_set, text_of, vertices_view, CommitRecord,
    ParentlessCommit, RecordView, SerializationFormat, StoreError,
};
use crate::vertex::Vertex;

verus! {

/// The append-only commit log: ground truth for the full history.
pub struct LegacyStore {
    dir: String,
    format: SerializationFormat,
    log: Vec<CommitRecord>,
    dirty: bool,
}

/// The mathematical value of a legacy store.
pub struct LegacyView {
    /// The records, in the order in which they were appended.
    pub log: Seq<RecordView>,
    /// Whether there are changes that no flush has made durable yet.
    pub dirty: bool,
}

impl View for LegacyStore {
    type V = LegacyView;

    closed spec fn view(&self) -> LegacyView {
        LegacyView { log: records_view(self.log@), dirty: self.dirty }
    }
}

/// What the store hands out for one streamed vertex.
pub open spec fn stream_item_ok(
    log: Seq<RecordView>,
    v: Seq<u8>,
    item: Result<ParentlessCommit, StoreError>,
) -> bool {
    match item {
        Ok(c) => c.vertex@ == v && text_of(log, v) == Some(c.raw_text@),
        Err(e) => text_of(log, v) is None && (e matches StoreError::NotFound(x) && x@ == v),
    }
}

impl LegacyStore {
    /// The store's invariant: each vertex once, parents before children.
    pub open spec fn wf(&self) -> bool {
        closed_history(self@.log)
    }

    /// An empty log kept under `dir`.
    pub fn new(dir: String, format: SerializationFormat) -> (r: LegacyStore)
        ensures
            r.wf(),
            r@.log == Seq::<RecordView>::empty(),
            !r@.dirty,
            r.dir_spec() == dir@,
            r.format_spec() == format,
    {
        LegacyStore { dir, format, log: Vec::new(), dirty: false }
    }

    pub closed spec fn dir_spec(&self) -> Seq<char> {
        self.dir@
    }

    pub closed spec fn format_spec(&self) -> SerializationFormat {
        self.format
    }

    /// The directory of the log.
    pub fn dir(&self) -> (r: &str)
        ensures
            r@ == self.dir_spec(),
    {
        self.dir.as_str()
    }

    pub fn format(&self) -> (r: SerializationFormat)
        ensures
            r == self.format_spec(),
    {
        self.format
    }

    /// Appends the records whose vertices are new; fails, changing nothing, on a dangling parent.
    pub fn add_commits(&mut self, batch: &Vec<CommitRecord>) -> (r: Result<(), StoreError>)
        requires
            old(self).wf(),
        ensures
            final(self).wf(),
            r is Ok <==> batch_accepted(old(self)@.log, records_view(batch@)),
            r is Ok ==> final(self)@.log == add_batch(old(self)@.log, records_view(batch@))
                && final(self)@.dirty,
            r is Err ==> final(self)@ == old(self)@,
            r matches Err(e) ==> reports_dangling(old(self)@.log, records_view(batch@), e),
            final(self).dir_spec() == old(self).dir_spec(),
            final(self).format_spec() == old(self).format_spec(),
    {
        let r = append_batch(&mut self.log, batch);
        if r.is_ok() {
            proof {
                lemma_add_batch_distinct(records_view(old(self).log@), records_view(batch@));
                lemma_add_batch_parents(records_view(old(self).log@), records_view(batch@));
            }
            self.dirty = true;
        }
        r
    }

    /// Makes every appended record durable.
    pub fn flush(&mut self)
        ensures
            final(self).wf() == old(self).wf(),
            final(self)@.log == old(self)@.log,
            !final(self)@.dirty,
            final(self).dir_spec() == old(self).dir_spec(),
            final(self).format_spec() == old(self).format_spec(),
    {
        self.dirty = false;
    }

    /// Whether some change has not been made durable by a flush yet.
    pub fn has_unflushed_changes(&self) -> (r: bool)
        ensures
            r == self@.dirty,
    {
        self.dirty
    }

    /// Whether the log holds `v`.
    pub fn contains(&self, v: &Vertex) -> (r: bool)
        ensures
            r == crate::history::has_vertex(self@.log, v@),
    {
        crate::history::find_vertex(&self.log, v).is_some()
    }

    /// The raw text of `v`; absent when the log does not hold it.
    pub fn get_commit_raw_text(&self, v: &Vertex) -> (r: Option<Vec<u8>>)
        ensures
            match r {
                Some(t) => text_of(self@.log, v@) == Some(t@),
                None => text_of(self@.log, v@) is None,
            },
    {
        lookup_text(&self.log, v)
    }

    /// The raw text of each vertex of `vs`, in the order of `vs`.
    pub fn stream_commit_raw_text(&self, vs: &Vec<Vertex>) -> (r: Vec<
        Result<ParentlessCommit, StoreError>,
    >)
        ensures
            r.len() == vs.len(),
            forall|i: int| 0 <= i < vs.len() ==> stream_item_ok(self@.log, vs@[i]@, #[trigger] r@[i]),
    {
        let mut out: Vec<Result<ParentlessCommit, StoreError>> = Vec::new();
        let mut i: usize = 0;
        while i < vs.len()
            invariant
                0 <= i <= vs.len(),
                out.len() == i,
                forall|k: int| 0 <= k < i ==> stream_item_ok(self@.log, vs@[k]@, #[trigger] out@[k]),
            decreases vs.len() - i,
        {
            let item = match lookup_text(&self.log, &vs[i]) {
                Some(t) => Ok(ParentlessCommit { vertex: vs[i].duplicate(), raw_text: t }),
                None => Err(StoreError::NotFound(vs[i].duplicate())),
            };
            out.push(item);
            i = i + 1;
        }
        out
    }

    /// Removes the records of `s` and their descendants; returns the removed vertices.
    pub fn strip_commits(&mut self, s: &Vec<Vertex>) -> (removed: Vec<Vertex>)
        requires
            old(self).wf(),
        ensures
            final(self).wf(),
            final(self)@.log == strip_log(old(self)@.log, vertices_view(s@)),
            vertices_view(removed@).to_set() == stripped_set(old(self)@.log, vertices_view(s@)),
            final(self)@.dirty,
            final(self).dir_spec() == old(self).dir_spec(),
            final(self).format_spec() == old(self).format_spec(),
    {
        let removed = strip_records(&mut self.log, s);
        proof {
            lemma_strip_distinct(records_view(old(self).log@), vertices_view(s@));
            lemma_strip_parents(records_view(old(self).log@), vertices_view(s@));
        }
        self.dirty = true;
        removed
    }

    /// A copy of every record, in log order.
    pub fn records(&self) -> (r: Vec<CommitRecord>)
        ensures
            records_view(r@) == self@.log,
    {
        let mut out: Vec<CommitRecord> = Vec::new();
        let mut i: usize = 0;
        while i < self.log.len()
            invariant
                0 <= i <= self.log.len(),
                out.len() == i,
                forall|k: int| 0 <= k < i ==> out@[k]@ == self.log@[k]@,
            decreases self.log.len() - i,
        {
            out.push(self.log[i].duplicate());
            i = i + 1;
        }
        assert(records_view(out@) =~= records_view(self.log@));
        out
    }
}

} // verus!
