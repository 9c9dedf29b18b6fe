use vstd::prelude::*;
use vstd::string::{StrSliceExecFns, StringExecFns};

use crate::graph::{heads_set, roots_set, is_ancestor_index, ancestor_set, descendant_set, prefix_set, GraphStore, GraphView};
use crate::history::{
    add_batch, batch_accepted, has_vertex, lemma_add_batch_has, lemma_strip_excludes, lemma_stripped_covers, lemma_text_after_add,
    lemma_text_iff_has, lemma_closed_batch_accepted,
    lemma_strip_keeps, lemma_strip_within, records_view, reports_dangling, strip_log,
    stripped_set, text_of, vertices_view, CommitRecord, ParentlessCommit, RecordView,
    SerializationFormat, StoreError,
};
use crate::legacy::{stream_item_ok, LegacyStore, LegacyView};
use crate::vertex::Vertex;

verus! {

/// Why a coordinated change failed.
pub enum DoubleWriteError {
    /// The legacy log refused the change; neither store changed.
    Legacy(StoreError),
    /// The legacy log took the change and the graph refused it: the graph is behind.
    GraphBehind(StoreError),
}

/// Every committed vertex of the graph is in the legacy log.
pub open spec fn graph_within_legacy(g: Seq<RecordView>, l: Seq<RecordView>) -> bool {
    forall|v: Seq<u8>| has_vertex(g, v) ==> has_vertex(l, v)
}

/// The text a read answers: the graph's if it has one, else the legacy log's.
pub open spec fn read_through(g: Seq<RecordView>, l: Seq<RecordView>, v: Seq<u8>) -> Option<Seq<u8>> {
    match text_of(g, v) {
        Some(t) => Some(t),
        None => text_of(l, v),
    }
}

/// `dir` joined with the revlog's changelog files, as a path join does it: a separator is
/// added unless `dir` is empty or already ends in one.
pub open spec fn changelog_path(dir: Seq<char>) -> Seq<char> {
    if dir.len() > 0 && dir.last() != '/' {
        dir + "/00changelog.{i,d,nodemap}"@
    } else {
        dir + "00changelog.{i,d,nodemap}"@
    }
}

/// The description of the backends at the given locations.
pub open spec fn description(dag: Seq<char>, commits: Seq<char>, revlog: Seq<char>) -> Seq<char> {
    "Backend (doublewrite):\n  Local:\n    Segments + IdMap: "@ + dag + "\n    Zstore: "@ + commits
        + "\n    Revlog + Nodemap: "@ + changelog_path(revlog)
        + "\nFeature Providers:\n  Commit Graph Algorithms:\n    Segments\n  Commit Hash / Rev Lookup:\n    IdMap\n  Commit Data (user, message):\n    Zstore (incomplete)\n    Revlog\n"@
}

/// The segment graph for ancestry and ids, the legacy log for commit text; every write goes to both.
pub struct DoubleWriteCommits {
    revlog: LegacyStore,
    commits: GraphStore,
    format: SerializationFormat,
}

impl DoubleWriteCommits {
    pub closed spec fn legacy_view(&self) -> LegacyView {
        self.revlog@
    }

    pub closed spec fn graph_view(&self) -> GraphView {
        self.commits@
    }

    pub closed spec fn format_spec(&self) -> SerializationFormat {
        self.format
    }

    pub closed spec fn paths_spec(&self) -> (Seq<char>, Seq<char>, Seq<char>) {
        (self.commits.paths_spec().0, self.commits.paths_spec().1, self.revlog.dir_spec())
    }

    /// The serialization formats of the legacy log and of the graph.
    pub closed spec fn store_formats(&self) -> (SerializationFormat, SerializationFormat) {
        (self.revlog.format_spec(), self.commits.format_spec())
    }

    /// The invariant: both stores are well formed and use the coordinator's format, and the
    /// graph holds no commit the log lacks.
    pub closed spec fn wf(&self) -> bool {
        &&& self.revlog.format_spec() == self.format
        &&& self.commits.format_spec() == self.format
        &&& self.revlog.wf()
        &&& self.commits.wf()
        &&& graph_within_legacy(self.commits@.log, self.revlog@.log)
    }

    /// Two empty stores at the given locations.
    pub fn new(
        revlog_dir: String,
        dag_path: String,
        commits_path: String,
        format: SerializationFormat,
    ) -> (r: DoubleWriteCommits)
        ensures
            r.wf(),
            r.legacy_view().log == Seq::<RecordView>::empty(),
            r.graph_view().log == Seq::<RecordView>::empty(),
            r.format_spec() == format,
            r.store_formats() == (format, format),
            r.paths_spec() == (dag_path@, commits_path@, revlog_dir@),
    {
        let commits = GraphStore::new(dag_path, commits_path, format);
        let revlog = LegacyStore::new(revlog_dir, format);
        DoubleWriteCommits { revlog, commits, format }
    }

    /// Puts two existing stores together; absent when either store uses another format than
    /// `format`, or when the graph holds a commit the log lacks.
    pub fn from_stores(
        revlog: LegacyStore,
        commits: GraphStore,
        format: SerializationFormat,
    ) -> (r: Option<DoubleWriteCommits>)
        requires
            revlog.wf(),
            commits.wf(),
        ensures
            r is Some <==> (revlog.format_spec() == format && commits.format_spec() == format
                && graph_within_legacy(commits@.log, revlog@.log)),
            r matches Some(c) ==> c.wf() && c.legacy_view() == revlog@ && c.graph_view() == commits@
                && c.format_spec() == format,
    {
        if revlog.format() != format || commits.format() != format {
            return None;
        }
        let records = commits.records_copy();
        let mut i: usize = 0;
        while i < records.len()
            invariant
                0 <= i <= records.len(),
                records_view(records@) == commits@.log,
                forall|k: int| 0 <= k < i ==> has_vertex(revlog@.log, #[trigger] records@[k].vertex@),
            decreases records.len() - i,
        {
            if !revlog.contains(&records[i].vertex) {
                assert(records_view(records@)[i as int].vertex == records@[i as int].vertex@);
                return None;
            }
            i = i + 1;
        }
        assert(graph_within_legacy(commits@.log, revlog@.log)) by {
            assert forall|v: Seq<u8>| has_vertex(commits@.log, v) implies has_vertex(revlog@.log, v) by {
                let k = choose|k: int| 0 <= k < commits@.log.len() && commits@.log[k].vertex == v;
                assert(records_view(records@)[k].vertex == records@[k].vertex@);
            }
        }
        Some(DoubleWriteCommits { revlog, commits, format })
    }

    /// The legacy log.
    pub fn legacy(&self) -> (r: &LegacyStore)
        ensures
            r@ == self.legacy_view(),
            r.format_spec() == self.store_formats().0,
            r.wf() <== self.wf(),
    {
        &self.revlog
    }

    /// The segment graph.
    pub fn graph(&self) -> (r: &GraphStore)
        ensures
            r@ == self.graph_view(),
            r.format_spec() == self.store_formats().1,
            r.wf() <== self.wf(),
    {
        &self.commits
    }

    pub fn format(&self) -> (r: SerializationFormat)
        ensures
            r == self.format_spec(),
    {
        self.format
    }

    /// Appends `batch` to the legacy log, then to the graph.
    /// When the log refuses, nothing changes; when the graph refuses, the log keeps the batch.
    pub fn add_commits(&mut self, batch: &Vec<CommitRecord>) -> (r: Result<(), DoubleWriteError>)
        requires
            old(self).wf(),
        ensures
            final(self).wf(),
            final(self).format_spec() == old(self).format_spec(),
            final(self).paths_spec() == old(self).paths_spec(),
            !batch_accepted(old(self).legacy_view().log, records_view(batch@)) ==> {
                &&& r matches Err(DoubleWriteError::Legacy(e))
                &&& reports_dangling(old(self).legacy_view().log, records_view(batch@), e)
                &&& final(self).legacy_view() == old(self).legacy_view()
                &&& final(self).graph_view() == old(self).graph_view()
            },
            batch_accepted(old(self).legacy_view().log, records_view(batch@)) ==> {
                &&& final(self).legacy_view().log == add_batch(old(self).legacy_view().log, records_view(batch@))
                &&& final(self).legacy_view().dirty
                &&& r is Ok <==> (batch.len() <= u64::MAX - old(self).graph_view().next_id
                    && batch_accepted(old(self).graph_view().log, records_view(batch@)))
                &&& r is Ok ==> final(self).graph_view().log == add_batch(old(self).graph_view().log, records_view(batch@))
                    && final(self).graph_view().ids.take(old(self).graph_view().ids.len() as int)
                        == old(self).graph_view().ids
                    && final(self).graph_view().virtual_parents == old(self).graph_view().virtual_parents
                    && final(self).graph_view().master_heads == old(self).graph_view().master_heads
                &&& r is Err ==> (r matches Err(DoubleWriteError::GraphBehind(_)))
                    && final(self).graph_view() == old(self).graph_view()
            },
    {
        let ghost l0 = self.revlog@.log;
        let ghost g0 = self.commits@.log;
        let ghost b = records_view(batch@);
        match self.revlog.add_commits(batch) {
            Ok(()) => {},
            Err(e) => return Err(DoubleWriteError::Legacy(e)),
        }
        let r = self.commits.add_commits(batch);
        proof {
            assert forall|v: Seq<u8>| has_vertex(self.commits@.log, v) implies has_vertex(self.revlog@.log, v) by {
                lemma_add_batch_has(l0, b, v);
                if r is Ok {
                    lemma_add_batch_has(g0, b, v);
                }
            }
        }
        match r {
            Ok(()) => Ok(()),
            Err(e) => Err(DoubleWriteError::GraphBehind(e)),
        }
    }

    /// Flushes the legacy log, then the graph, which also records `master_heads`.
    pub fn flush(&mut self, master_heads: &Vec<Vertex>)
        requires
            old(self).wf(),
        ensures
            final(self).wf(),
            final(self).format_spec() == old(self).format_spec(),
            final(self).paths_spec() == old(self).paths_spec(),
            final(self).legacy_view() == (LegacyView { dirty: false, ..old(self).legacy_view() }),
            final(self).graph_view() == (GraphView {
                master_heads: vertices_view(master_heads@),
                index_dirty: false,
                text_dirty: false,
                ..old(self).graph_view()
            }),
    {
        self.revlog.flush();
        self.commits.flush(master_heads);
    }

    /// Flushes the commit text of both stores, leaving the graph's segment index as it is.
    pub fn flush_commit_data(&mut self)
        requires
            old(self).wf(),
        ensures
            final(self).wf(),
            final(self).format_spec() == old(self).format_spec(),
            final(self).paths_spec() == old(self).paths_spec(),
            final(self).legacy_view() == (LegacyView { dirty: false, ..old(self).legacy_view() }),
            final(self).graph_view() == (GraphView { text_dirty: false, ..old(self).graph_view() }),
    {
        self.revlog.flush();
        self.commits.flush_commit_data();
    }

    /// Replaces the working copy's virtual parents in the graph; the legacy log and the
    /// committed history stay as they are.
    pub fn update_virtual_nodes(&mut self, wdir_parents: Vec<Vertex>)
        requires
            old(self).wf(),
        ensures
            final(self).wf(),
            final(self).format_spec() == old(self).format_spec(),
            final(self).paths_spec() == old(self).paths_spec(),
            final(self).legacy_view() == old(self).legacy_view(),
            final(self).graph_view() == (GraphView {
                virtual_parents: vertices_view(wdir_parents@),
                ..old(self).graph_view()
            }),
    {
        self.commits.update_virtual_nodes(wdir_parents);
    }

    /// The raw text of `v`: from the graph if it has it, else from the legacy log.
    pub fn get_commit_raw_text(&self, v: &Vertex) -> (r: Option<Vec<u8>>)
        ensures
            match r {
                Some(t) => read_through(self.graph_view().log, self.legacy_view().log, v@) == Some(t@),
                None => read_through(self.graph_view().log, self.legacy_view().log, v@) is None,
            },
    {
        match self.commits.get_commit_raw_text(v) {
            Some(t) => Some(t),
            None => self.revlog.get_commit_raw_text(v),
        }
    }

    /// The raw text of each vertex of `vs`, in order, read from the legacy log alone.
    pub fn stream_commit_raw_text(&self, vs: &Vec<Vertex>) -> (r: Vec<
        Result<ParentlessCommit, StoreError>,
    >)
        ensures
            r.len() == vs.len(),
            forall|i: int|
                0 <= i < vs.len() ==> stream_item_ok(self.legacy_view().log, vs@[i]@, #[trigger] r@[i]),
    {
        self.revlog.stream_commit_raw_text(vs)
    }

    /// Strips `s` and its descendants from the legacy log, then the same commits from the graph.
    /// The log, as the ground truth, decides what depends on `s`: the graph is handed the set
    /// of vertices the log removed, so that a graph left behind cannot keep a commit whose
    /// ancestor the log dropped.
    pub fn strip_commits(&mut self, s: &Vec<Vertex>)
        requires
            old(self).wf(),
        ensures
            final(self).wf(),
            final(self).format_spec() == old(self).format_spec(),
            final(self).paths_spec() == old(self).paths_spec(),
            final(self).legacy_view().log == strip_log(old(self).legacy_view().log, vertices_view(s@)),
            exists|rs: Seq<Seq<u8>>|
                rs.to_set() == stripped_set(old(self).legacy_view().log, vertices_view(s@))
                    && #[trigger] strip_log(old(self).graph_view().log, rs) == final(self).graph_view().log,
            final(self).graph_view().virtual_parents == old(self).graph_view().virtual_parents,
            forall|v: Seq<u8>| vertices_view(s@).contains(v) ==> !has_vertex(final(self).legacy_view().log, v)
                && !has_vertex(final(self).graph_view().log, v),
    {
        let ghost l0 = self.revlog@.log;
        let ghost g0 = self.commits@.log;
        let removed = self.revlog.strip_commits(s);
        self.commits.strip_commits(&removed);
        proof {
            let rs = vertices_view(removed@);
            assert forall|v: Seq<u8>| has_vertex(self.commits@.log, v) implies has_vertex(self.revlog@.log, v) by {
                lemma_strip_within(g0, rs, v);
                if rs.contains(v) {
                    lemma_strip_excludes(g0, rs, v);
                }
                lemma_strip_keeps(l0, vertices_view(s@), v);
            }
            assert(strip_log(g0, rs) == self.commits@.log);
            assert forall|v: Seq<u8>| vertices_view(s@).contains(v) implies !has_vertex(self.revlog@.log, v)
                && !has_vertex(self.commits@.log, v) by {
                lemma_strip_clears(l0, g0, vertices_view(s@), rs, v);
            }
            assert(rs.to_set() == stripped_set(l0, vertices_view(s@)));
            assert(strip_log(old(self).graph_view().log, rs) == self.graph_view().log);
        }
    }

    /// Replays the legacy log into the graph, so that a graph left behind catches up.
    pub fn catch_up(&mut self) -> (r: Result<(), DoubleWriteError>)
        requires
            old(self).wf(),
        ensures
            final(self).wf(),
            final(self).format_spec() == old(self).format_spec(),
            final(self).paths_spec() == old(self).paths_spec(),
            final(self).legacy_view() == old(self).legacy_view(),
            r is Ok <==> old(self).legacy_view().log.len() <= u64::MAX - old(self).graph_view().next_id,
            r is Ok ==> final(self).graph_view().log == add_batch(old(self).graph_view().log, old(self).legacy_view().log)
                && forall|v: Seq<u8>| has_vertex(final(self).legacy_view().log, v) ==> has_vertex(final(self).graph_view().log, v),
            r is Err ==> (r matches Err(DoubleWriteError::GraphBehind(_)))
                && final(self).graph_view() == old(self).graph_view(),
    {
        let ghost l0 = self.revlog@.log;
        let ghost g0 = self.commits@.log;
        let records = self.revlog.records();
        proof {
            lemma_closed_batch_accepted(g0, l0);
        }
        let r = self.commits.add_commits(&records);
        proof {
            assert forall|v: Seq<u8>| has_vertex(self.commits@.log, v) implies has_vertex(self.revlog@.log, v) by {
                if r is Ok {
                    lemma_add_batch_has(g0, l0, v);
                    if exists|j: int| 0 <= j < l0.len() && l0[j].vertex == v {
                        let j = choose|j: int| 0 <= j < l0.len() && l0[j].vertex == v;
                        assert(l0[j].vertex == v);
                    }
                }
            }
            if r is Ok {
                assert forall|v: Seq<u8>| has_vertex(l0, v) implies has_vertex(self.commits@.log, v) by {
                    lemma_add_batch_has(g0, l0, v);
                    let j = choose|j: int| 0 <= j < l0.len() && l0[j].vertex == v;
                    assert(l0[j].vertex == v);
                }
            }
        }
        match r {
            Ok(()) => Ok(()),
            Err(e) => Err(DoubleWriteError::GraphBehind(e)),
        }
    }

    /// The ancestors of `v` in the graph, `v` included.
    pub fn ancestors(&self, v: &Vertex) -> (r: Vec<Vertex>)
        requires
            self.wf(),
        ensures
            !has_vertex(self.graph_view().log, v@) ==> r@.len() == 0,
            has_vertex(self.graph_view().log, v@) ==> exists|j: int|
                0 <= j < self.graph_view().log.len() && #[trigger] self.graph_view().log[j].vertex == v@
                    && vertices_view(r@).to_set() == ancestor_set(self.graph_view().log, j),
    {
        self.commits.ancestors(v)
    }

    /// Whether `a` is an ancestor of `b` in the graph (every vertex is its own).
    pub fn is_ancestor(&self, a: &Vertex, b: &Vertex) -> (r: bool)
        requires
            self.wf(),
        ensures
            r == exists|i: int, j: int|
                0 <= i < self.graph_view().log.len() && 0 <= j < self.graph_view().log.len()
                    && self.graph_view().log[i].vertex == a@ && self.graph_view().log[j].vertex == b@
                    && #[trigger] is_ancestor_index(self.graph_view().log, i, j),
    {
        let r = self.commits.is_ancestor(a, b);
        assert(self.graph_view().log == self.commits@.log);
        r
    }

    /// The graph's committed vertices that have no children.
    pub fn heads(&self) -> (r: Vec<Vertex>)
        requires
            self.wf(),
        ensures
            vertices_view(r@).to_set() == heads_set(self.graph_view().log),
    {
        self.commits.heads()
    }

    /// The graph's committed vertices that have no parents.
    pub fn roots(&self) -> (r: Vec<Vertex>)
        requires
            self.wf(),
        ensures
            vertices_view(r@).to_set() == roots_set(self.graph_view().log),
    {
        self.commits.roots()
    }

    /// The descendants of `v` in the graph, `v` included.
    pub fn descendants(&self, v: &Vertex) -> (r: Vec<Vertex>)
        requires
            self.wf(),
        ensures
            !has_vertex(self.graph_view().log, v@) ==> r@.len() == 0,
            has_vertex(self.graph_view().log, v@) ==> exists|j: int|
                0 <= j < self.graph_view().log.len() && #[trigger] self.graph_view().log[j].vertex == v@
                    && vertices_view(r@).to_set() == descendant_set(self.graph_view().log, j),
    {
        self.commits.descendants(v)
    }

    /// The graph's vertices whose hash starts with `prefix`.
    pub fn vertices_with_prefix(&self, prefix: &Vec<u8>) -> (r: Vec<Vertex>)
        requires
            self.wf(),
        ensures
            vertices_view(r@).to_set() == prefix_set(self.graph_view().log, prefix@),
    {
        self.commits.vertices_with_prefix(prefix)
    }

    /// The graph's id of `v`.
    pub fn vertex_id(&self, v: &Vertex) -> (r: Option<u64>)
        requires
            self.wf(),
        ensures
            r is None <==> !has_vertex(self.graph_view().log, v@),
            r matches Some(id) ==> exists|i: int|
                0 <= i < self.graph_view().log.len() && self.graph_view().log[i].vertex == v@
                    && #[trigger] self.graph_view().ids[i] == id,
    {
        let r = self.commits.vertex_id(v);
        proof {
            if let Some(id) = r {
                let i = choose|i: int|
                    0 <= i < self.commits@.log.len() && self.commits@.log[i].vertex == v@ && #[trigger] self.commits@.ids[i] == id;
                assert(self.graph_view().ids[i] == id);
            }
        }
        r
    }

    /// The vertex that has id `id` in the graph.
    pub fn id_vertex(&self, id: u64) -> (r: Option<Vertex>)
        requires
            self.wf(),
        ensures
            r is None <==> forall|i: int| 0 <= i < self.graph_view().ids.len() ==> self.graph_view().ids[i] != id,
            r matches Some(x) ==> exists|i: int|
                0 <= i < self.graph_view().log.len() && #[trigger] self.graph_view().ids[i] == id
                    && self.graph_view().log[i].vertex == x@,
    {
        let r = self.commits.id_vertex(id);
        proof {
            if r is Some {
                let x = r->0;
                let i = choose|i: int|
                    0 <= i < self.commits@.log.len() && #[trigger] self.commits@.ids[i] == id && self.commits@.log[i].vertex == x@;
                assert(self.graph_view().ids[i] == id);
            } else {
                assert forall|i: int| 0 <= i < self.graph_view().ids.len() implies self.graph_view().ids[i] != id by {
                    assert(self.commits@.ids[i] != id);
                }
            }
        }
        r
    }

    /// The backend that answers graph queries.
    pub fn algorithm_backend(&self) -> (r: &'static str)
        ensures
            r@ == "segments"@,
    {
        "segments"
    }

    /// Which backend provides what, and where each keeps its data.
    pub fn describe_backend(&self) -> (r: String)
        ensures
            r@ == description(self.paths_spec().0, self.paths_spec().1, self.paths_spec().2),
    {
        let mut out = String::from_str("Backend (doublewrite):\n  Local:\n    Segments + IdMap: ");
        out.append(self.commits.dag_path());
        out.append("\n    Zstore: ");
        out.append(self.commits.commits_path());
        out.append("\n    Revlog + Nodemap: ");
        let dir = self.revlog.dir();
        out.append(dir);
        let n: usize = dir.unicode_len();
        if n > 0 && dir.get_char(n - 1) != '/' {
            out.append("/00changelog.{i,d,nodemap}");
        } else {
            out.append("00changelog.{i,d,nodemap}");
        }
        out.append("\nFeature Providers:\n  Commit Graph Algorithms:\n    Segments\n  Commit Hash / Rev Lookup:\n    IdMap\n  Commit Data (user, message):\n    Zstore (incomplete)\n    Revlog\n");
        out
    }
}

/// A coordinator never mixes formats: both stores use the coordinator's own.
pub proof fn lemma_one_format(c: &DoubleWriteCommits)
    requires
        c.wf(),
    ensures
        c.store_formats() == (c.format_spec(), c.format_spec()),
{
}

/// Whatever sequence of operations produced it, a coordinator's graph holds only commits
/// that its legacy log holds too.
pub proof fn lemma_graph_within_legacy(c: &DoubleWriteCommits, v: Seq<u8>)
    requires
        c.wf(),
        has_vertex(c.graph_view().log, v),
    ensures
        has_vertex(c.legacy_view().log, v),
{
}

/// A commit that the legacy log holds and the graph lacks reads back as the log's text.
pub proof fn lemma_read_falls_back(g: Seq<RecordView>, l: Seq<RecordView>, v: Seq<u8>)
    requires
        has_vertex(l, v),
        !has_vertex(g, v),
    ensures
        text_of(l, v) is Some,
        read_through(g, l, v) == text_of(l, v),
{
    lemma_text_iff_has(l, v);
    lemma_text_iff_has(g, v);
}

/// After a strip of `s`, neither store holds a vertex of `s`, and no ancestor, descendant,
/// prefix, heads or roots answer of the graph names one. `rs` is what the legacy log removed, which the graph
/// strips in turn.
pub proof fn lemma_strip_clears(
    l: Seq<RecordView>,
    g: Seq<RecordView>,
    s: Seq<Seq<u8>>,
    rs: Seq<Seq<u8>>,
    v: Seq<u8>,
)
    requires
        graph_within_legacy(g, l),
        rs.to_set() == stripped_set(l, s),
        s.contains(v),
    ensures
        !has_vertex(strip_log(l, s), v),
        !has_vertex(strip_log(g, rs), v),
        forall|j: int| !(#[trigger] ancestor_set(strip_log(g, rs), j)).contains(v),
        forall|j: int| !(#[trigger] descendant_set(strip_log(g, rs), j)).contains(v),
        forall|p: Seq<u8>| !(#[trigger] prefix_set(strip_log(g, rs), p)).contains(v),
        !heads_set(strip_log(g, rs)).contains(v),
        !roots_set(strip_log(g, rs)).contains(v),
{
    lemma_strip_excludes(l, s, v);
    if has_vertex(strip_log(g, rs), v) {
        lemma_strip_within(g, rs, v);
        lemma_stripped_covers(l, s, v);
        assert(rs.to_set().contains(v));
        lemma_strip_excludes(g, rs, v);
    }
    assert forall|j: int| !(#[trigger] ancestor_set(strip_log(g, rs), j)).contains(v) by {
        let kept = strip_log(g, rs);
        if ancestor_set(kept, j).contains(v) {
            let i = choose|i: int| 0 <= i < kept.len() && kept[i].vertex == v && crate::graph::is_ancestor_index(kept, i, j);
            assert(kept[i].vertex == v);
        }
    }
    let kept = strip_log(g, rs);
    if heads_set(kept).contains(v) {
        let j = choose|j: int| 0 <= j < kept.len() && kept[j].vertex == v
            && forall|q: int| !#[trigger] crate::graph::parent_index(kept, j, q);
        assert(kept[j].vertex == v);
    }
    if roots_set(kept).contains(v) {
        let j = choose|j: int| 0 <= j < kept.len() && kept[j].vertex == v && kept[j].parents.len() == 0;
        assert(kept[j].vertex == v);
    }
    assert forall|j: int| !(#[trigger] descendant_set(strip_log(g, rs), j)).contains(v) by {
        let kept = strip_log(g, rs);
        if descendant_set(kept, j).contains(v) {
            let i = choose|i: int| 0 <= i < kept.len() && kept[i].vertex == v && crate::graph::is_descendant_index(kept, i, j);
            assert(kept[i].vertex == v);
        }
    }
}

/// A new commit, once appended, reads back byte for byte: whether the graph took the batch
/// too or stayed behind.
pub proof fn lemma_round_trip(l: Seq<RecordView>, g: Seq<RecordView>, batch: Seq<RecordView>, i: int)
    requires
        graph_within_legacy(g, l),
        0 <= i < batch.len(),
        !has_vertex(l, batch[i].vertex),
        forall|k: int| 0 <= k < batch.len() && k != i ==> batch[k].vertex != batch[i].vertex,
    ensures
        read_through(add_batch(g, batch), add_batch(l, batch), batch[i].vertex) == Some(batch[i].raw_text),
        read_through(g, add_batch(l, batch), batch[i].vertex) == Some(batch[i].raw_text),
{
    let v = batch[i].vertex;
    lemma_text_after_add(l, batch, i);
    lemma_text_after_add(g, batch, i);
    lemma_text_iff_has(g, v);
}

} // verus!
