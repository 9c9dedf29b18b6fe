use vstd::prelude::*;

use crate::history::{
    closed_history, lemma_add_batch_distinct, lemma_strip_distinct, lemma_add_batch_parents,
    lemma_strip_parents,
    hit_by_strip, strip_hits, contains_vertex, find_vertex, batch_has, lemma_add_batch_has,
    append_batch, add_batch, batch_accepted, has_vertex, lemma_add_batch_extends, lookup_text,
    records_view, reports_dangling, strip_log, strip_records, stripped_set, text_of,
    vertices_view, CommitRecord, RecordView, SerializationFormat, StoreError,
};
use crate::vertex::Vertex;

verus! {

/// The id-mapped commit graph: answers ancestry and id queries and holds virtual nodes.
pub struct GraphStore {
    dag_path: String,
    commits_path: String,
    format: SerializationFormat,
    log: Vec<CommitRecord>,
    ids: Vec<u64>,
    next_id: u64,
    virtual_parents: Vec<Vertex>,
    master_heads: Vec<Vertex>,
    index_dirty: bool,
    text_dirty: bool,
}

/// The mathematical value of a graph store.
pub struct GraphView {
    /// The committed nodes, parents before children.
    pub log: Seq<RecordView>,
    /// The id of each node of `log`.
    pub ids: Seq<u64>,
    /// The id that the next new vertex gets.
    pub next_id: nat,
    /// The parents of the working copy: virtual, never committed.
    pub virtual_parents: Seq<Seq<u8>>,
    /// The heads given to the last flush of the segment index.
    pub master_heads: Seq<Seq<u8>>,
    /// Whether the segment index has changes that no flush has made durable.
    pub index_dirty: bool,
    /// Whether the raw text has changes that no flush has made durable.
    pub text_dirty: bool,
}

/// Ids grow along the nodes and stay below the next id: no id is ever given twice.
pub open spec fn ids_ok(g: GraphView) -> bool {
    &&& g.ids.len() == g.log.len()
    &&& forall|i: int, j: int| 0 <= i < j < g.ids.len() ==> g.ids[i] < g.ids[j]
    &&& forall|i: int| 0 <= i < g.ids.len() ==> g.ids[i] < g.next_id
}

/// Node `k` is a parent of node `q`.
pub open spec fn parent_index(log: Seq<RecordView>, k: int, q: int) -> bool {
    0 <= k < q < log.len() && log[q].parents.contains(log[k].vertex)
}

/// Node `i` is node `j` or a parent of an ancestor of node `j`.
pub open spec fn is_ancestor_index(log: Seq<RecordView>, i: int, j: int) -> bool
    decreases j - i,
{
    if i >= j {
        i == j
    } else {
        exists|q: int| i < q <= j && parent_index(log, i, q) && is_ancestor_index(log, q, j)
    }
}

/// Node `i` is node `j` or a child of a descendant of node `j`.
pub open spec fn is_descendant_index(log: Seq<RecordView>, i: int, j: int) -> bool
    decreases i - j,
{
    if i <= j {
        i == j
    } else {
        exists|k: int| j <= k < i && parent_index(log, k, i) && is_descendant_index(log, k, j)
    }
}

/// The vertices of the descendants of node `j`, `j` included.
pub open spec fn descendant_set(log: Seq<RecordView>, j: int) -> Set<Seq<u8>> {
    Set::new(|x: Seq<u8>| exists|i: int| 0 <= i < log.len() && log[i].vertex == x && is_descendant_index(log, i, j))
}

/// The vertices of the nodes that no node names as a parent.
pub open spec fn heads_set(log: Seq<RecordView>) -> Set<Seq<u8>> {
    Set::new(|x: Seq<u8>| exists|j: int|
        0 <= j < log.len() && log[j].vertex == x && forall|q: int| !#[trigger] parent_index(log, j, q))
}

/// The vertices of the nodes that have no parents.
pub open spec fn roots_set(log: Seq<RecordView>) -> Set<Seq<u8>> {
    Set::new(|x: Seq<u8>| exists|j: int| 0 <= j < log.len() && log[j].vertex == x && log[j].parents.len() == 0)
}

/// `p` is a prefix of `x`.
pub open spec fn is_prefix(p: Seq<u8>, x: Seq<u8>) -> bool {
    p.len() <= x.len() && x.take(p.len() as int) == p
}

/// The vertices of the graph that start with `p`.
pub open spec fn prefix_set(log: Seq<RecordView>, p: Seq<u8>) -> Set<Seq<u8>> {
    Set::new(|x: Seq<u8>| has_vertex(log, x) && is_prefix(p, x))
}

/// The vertices of the ancestors of node `j`, `j` included.
pub open spec fn ancestor_set(log: Seq<RecordView>, j: int) -> Set<Seq<u8>> {
    Set::new(|x: Seq<u8>| exists|i: int| 0 <= i < log.len() && log[i].vertex == x && is_ancestor_index(log, i, j))
}

impl View for GraphStore {
    type V = GraphView;

    closed spec fn view(&self) -> GraphView {
        GraphView {
            log: records_view(self.log@),
            ids: self.ids@,
            next_id: self.next_id as nat,
            virtual_parents: vertices_view(self.virtual_parents@),
            master_heads: vertices_view(self.master_heads@),
            index_dirty: self.index_dirty,
            text_dirty: self.text_dirty,
        }
    }
}

/// Appending a batch adds at most one record per record of the batch.
proof fn lemma_add_batch_len(log: Seq<RecordView>, batch: Seq<RecordView>)
    ensures
        add_batch(log, batch).len() <= log.len() + batch.len(),
    decreases batch.len(),
{
    if batch.len() > 0 {
        lemma_add_batch_len(log, batch.drop_last());
    }
}

impl GraphStore {
    /// The store's invariant: ids are unique and stable, each vertex has one node, and
    /// parents come before their children.
    pub open spec fn wf(&self) -> bool {
        ids_ok(self@) && closed_history(self@.log)
    }

    pub closed spec fn paths_spec(&self) -> (Seq<char>, Seq<char>) {
        (self.dag_path@, self.commits_path@)
    }

    pub closed spec fn format_spec(&self) -> SerializationFormat {
        self.format
    }

    /// An empty graph whose segments live at `dag_path` and raw text at `commits_path`.
    pub fn new(dag_path: String, commits_path: String, format: SerializationFormat) -> (r: GraphStore)
        ensures
            r.wf(),
            r@.log == Seq::<RecordView>::empty(),
            r@.next_id == 0,
            r@.virtual_parents == Seq::<Seq<u8>>::empty(),
            r@.master_heads == Seq::<Seq<u8>>::empty(),
            !r@.index_dirty,
            !r@.text_dirty,
            r.paths_spec() == (dag_path@, commits_path@),
            r.format_spec() == format,
    {
        GraphStore {
            dag_path,
            commits_path,
            format,
            log: Vec::new(),
            ids: Vec::new(),
            next_id: 0,
            virtual_parents: Vec::new(),
            master_heads: Vec::new(),
            index_dirty: false,
            text_dirty: false,
        }
    }

    pub fn dag_path(&self) -> (r: &str)
        ensures
            r@ == self.paths_spec().0,
    {
        self.dag_path.as_str()
    }

    pub fn commits_path(&self) -> (r: &str)
        ensures
            r@ == self.paths_spec().1,
    {
        self.commits_path.as_str()
    }

    pub fn format(&self) -> (r: SerializationFormat)
        ensures
            r == self.format_spec(),
    {
        self.format
    }

    /// Appends the records whose vertices are new, giving each the next id.
    /// Fails, changing nothing, when ids would run out or a parent is unknown.
    pub fn add_commits(&mut self, batch: &Vec<CommitRecord>) -> (r: Result<(), StoreError>)
        requires
            old(self).wf(),
        ensures
            final(self).wf(),
            batch.len() > u64::MAX - old(self)@.next_id ==> r matches Err(StoreError::IdsExhausted),
            batch.len() <= u64::MAX - old(self)@.next_id ==> {
                &&& r is Ok <==> batch_accepted(old(self)@.log, records_view(batch@))
                &&& r matches Err(e) ==> reports_dangling(old(self)@.log, records_view(batch@), e)
            },
            r is Err ==> final(self)@ == old(self)@,
            r is Ok ==> {
                &&& final(self)@.log == add_batch(old(self)@.log, records_view(batch@))
                &&& final(self)@.ids.take(old(self)@.ids.len() as int) == old(self)@.ids
                &&& final(self)@.virtual_parents == old(self)@.virtual_parents
                &&& final(self)@.master_heads == old(self)@.master_heads
                &&& final(self)@.index_dirty && final(self)@.text_dirty
            },
            final(self).paths_spec() == old(self).paths_spec(),
            final(self).format_spec() == old(self).format_spec(),
    {
        if batch.len() as u64 > u64::MAX - self.next_id {
            return Err(StoreError::IdsExhausted);
        }
        let ghost old_ids = self.ids@;
        let ghost old_next = self.next_id;
        let ghost old_len = self.log.len();
        let r = append_batch(&mut self.log, batch);
        if r.is_err() {
            return r;
        }
        proof {
            lemma_add_batch_distinct(records_view(old(self).log@), records_view(batch@));
            lemma_add_batch_parents(records_view(old(self).log@), records_view(batch@));
            lemma_add_batch_len(records_view(old(self).log@), records_view(batch@));
            lemma_add_batch_extends(records_view(old(self).log@), records_view(batch@));
        }
        let ghost mid = *self;
        while self.ids.len() < self.log.len()
            invariant
                self.log == mid.log,
                self.dag_path == mid.dag_path,
                self.commits_path == mid.commits_path,
                self.format == mid.format,
                self.virtual_parents == mid.virtual_parents,
                self.master_heads == mid.master_heads,
                old_len <= self.ids.len() <= self.log.len(),
                self.log.len() <= old_len + batch.len(),
                batch.len() <= u64::MAX - old_next,
                self.next_id == old_next + (self.ids.len() - old_len),
                self.ids@.take(old_len as int) == old_ids,
                forall|i: int, j: int| 0 <= i < j < self.ids.len() ==> self.ids@[i] < self.ids@[j],
                forall|i: int| 0 <= i < self.ids.len() ==> self.ids@[i] < self.next_id,
            decreases self.log.len() - self.ids.len(),
        {
            let ghost before = self.ids@;
            self.ids.push(self.next_id);
            proof {
                assert(self.ids@.take(old_len as int) =~= before.take(old_len as int));
            }
            self.next_id = self.next_id + 1;
        }
        self.index_dirty = true;
        self.text_dirty = true;
        Ok(())
    }

    /// Makes the segment index and the raw text durable, and records the main-line heads.
    pub fn flush(&mut self, master_heads: &Vec<Vertex>)
        requires
            old(self).wf(),
        ensures
            final(self).wf(),
            final(self)@ == (GraphView {
                master_heads: vertices_view(master_heads@),
                index_dirty: false,
                text_dirty: false,
                ..old(self)@
            }),
            final(self).paths_spec() == old(self).paths_spec(),
            final(self).format_spec() == old(self).format_spec(),
    {
        let mut heads: Vec<Vertex> = Vec::new();
        let mut i: usize = 0;
        while i < master_heads.len()
            invariant
                0 <= i <= master_heads.len(),
                heads.len() == i,
                forall|k: int| 0 <= k < i ==> heads@[k]@ == master_heads@[k]@,
            decreases master_heads.len() - i,
        {
            heads.push(master_heads[i].duplicate());
            i = i + 1;
        }
        assert(vertices_view(heads@) =~= vertices_view(master_heads@));
        self.master_heads = heads;
        self.index_dirty = false;
        self.text_dirty = false;
    }

    /// Makes the raw text durable, leaving the segment index as it is.
    pub fn flush_commit_data(&mut self)
        requires
            old(self).wf(),
        ensures
            final(self).wf(),
            final(self)@ == (GraphView { text_dirty: false, ..old(self)@ }),
            final(self).paths_spec() == old(self).paths_spec(),
            final(self).format_spec() == old(self).format_spec(),
    {
        self.text_dirty = false;
    }

    /// Replaces the virtual nodes: the parents of the working copy.
    pub fn update_virtual_nodes(&mut self, wdir_parents: Vec<Vertex>)
        requires
            old(self).wf(),
        ensures
            final(self).wf(),
            final(self)@ == (GraphView {
                virtual_parents: vertices_view(wdir_parents@),
                ..old(self)@
            }),
            final(self).paths_spec() == old(self).paths_spec(),
            final(self).format_spec() == old(self).format_spec(),
    {
        self.virtual_parents = wdir_parents;
    }

    /// Whether the graph holds the committed vertex `v`.
    pub fn contains(&self, v: &Vertex) -> (r: bool)
        ensures
            r == has_vertex(self@.log, v@),
    {
        find_vertex(&self.log, v).is_some()
    }

    /// The cached raw text of `v`; absent when the graph does not hold it.
    pub fn get_commit_raw_text(&self, v: &Vertex) -> (r: Option<Vec<u8>>)
        ensures
            match r {
                Some(t) => text_of(self@.log, v@) == Some(t@),
                None => text_of(self@.log, v@) is None,
            },
    {
        lookup_text(&self.log, v)
    }

    /// The id of `v`.
    pub fn vertex_id(&self, v: &Vertex) -> (r: Option<u64>)
        requires
            self.wf(),
        ensures
            r is None <==> !has_vertex(self@.log, v@),
            r matches Some(id) ==> exists|i: int|
                0 <= i < self@.log.len() && self@.log[i].vertex == v@ && #[trigger] self@.ids[i] == id,
    {
        match find_vertex(&self.log, v) {
            Some(i) => {
                assert(self@.log[i as int].vertex == v@);
                Some(self.ids[i])
            },
            None => None,
        }
    }

    /// The vertex that has id `id`.
    pub fn id_vertex(&self, id: u64) -> (r: Option<Vertex>)
        requires
            self.wf(),
        ensures
            r is None <==> forall|i: int| 0 <= i < self@.ids.len() ==> self@.ids[i] != id,
            r matches Some(x) ==> exists|i: int|
                0 <= i < self@.log.len() && #[trigger] self@.ids[i] == id && self@.log[i].vertex == x@,
    {
        let mut i: usize = 0;
        while i < self.ids.len()
            invariant
                self.wf(),
                0 <= i <= self.ids.len(),
                forall|k: int| 0 <= k < i ==> self@.ids[k] != id,
            decreases self.ids.len() - i,
        {
            if self.ids[i] == id {
                let x = self.log[i].vertex.duplicate();
                assert(self@.log[i as int].vertex == x@);
                return Some(x);
            }
            i = i + 1;
        }
        None
    }

    /// Removes the nodes of `s` and their descendants. The others keep their ids.
    pub fn strip_commits(&mut self, s: &Vec<Vertex>)
        requires
            old(self).wf(),
        ensures
            final(self).wf(),
            final(self)@.log == strip_log(old(self)@.log, vertices_view(s@)),
            forall|i: int| 0 <= i < final(self)@.log.len() ==> exists|j: int|
                0 <= j < old(self)@.log.len() && #[trigger] final(self)@.ids[i] == old(self)@.ids[j]
                    && final(self)@.log[i] == old(self)@.log[j],
            final(self)@.next_id == old(self)@.next_id,
            final(self)@.virtual_parents == old(self)@.virtual_parents,
            final(self)@.master_heads == old(self)@.master_heads,
            final(self)@.index_dirty && final(self)@.text_dirty,
            final(self).paths_spec() == old(self).paths_spec(),
            final(self).format_spec() == old(self).format_spec(),
    {
        let ghost l = records_view(self.log@);
        let ghost sv = vertices_view(s@);
        let ghost g = self@;
        let mut kept: Vec<CommitRecord> = Vec::new();
        let mut kept_ids: Vec<u64> = Vec::new();
        let mut removed: Vec<Vertex> = Vec::new();
        let mut i: usize = 0;
        while i < self.log.len()
            invariant
                self.wf(),
                self@ == g,
                0 <= i <= self.log.len(),
                l == records_view(self.log@),
                sv == vertices_view(s@),
                records_view(kept@) == strip_log(l.take(i as int), sv),
                vertices_view(removed@).to_set() == stripped_set(l.take(i as int), sv),
                kept_ids.len() == kept.len(),
                forall|a: int, b: int| 0 <= a < b < kept_ids.len() ==> kept_ids@[a] < kept_ids@[b],
                forall|a: int, j: int| 0 <= a < kept_ids.len() && i <= j < g.ids.len() ==> kept_ids@[a] < g.ids[j],
                forall|a: int| 0 <= a < kept_ids.len() ==> kept_ids@[a] < g.next_id,
                forall|a: int| 0 <= a < kept.len() ==> exists|j: int|
                    0 <= j < g.log.len() && #[trigger] kept_ids@[a] == g.ids[j]
                        && records_view(kept@)[a] == g.log[j],
            decreases self.log.len() - i,
        {
            proof {
                assert(l.take(i + 1).drop_last() =~= l.take(i as int));
                assert(l.take(i + 1).last() == l[i as int]);
            }
            if hit_by_strip(&removed, s, &self.log[i]) {
                let v = self.log[i].vertex.duplicate();
                let ghost before = vertices_view(removed@);
                removed.push(v);
                proof {
                    assert(vertices_view(removed@) =~= before.push(v@));
                    before.lemma_push_to_set_commute(v@);
                }
            } else {
                let ghost before = records_view(kept@);
                let ghost before_ids = kept_ids@;
                kept.push(self.log[i].duplicate());
                kept_ids.push(self.ids[i]);
                proof {
                    assert(records_view(kept@) =~= before.push(l[i as int]));
                    assert forall|a: int| 0 <= a < kept.len() implies exists|j: int|
                        0 <= j < g.log.len() && #[trigger] kept_ids@[a] == g.ids[j]
                            && records_view(kept@)[a] == g.log[j] by {
                        if a < before.len() {
                            assert(before_ids[a] == kept_ids@[a]);
                            assert(before[a] == records_view(kept@)[a]);
                        } else {
                            assert(kept_ids@[a] == g.ids[i as int]);
                        }
                    }
                }
            }
            i = i + 1;
        }
        proof {
            assert(l.take(i as int) =~= l);
            lemma_strip_distinct(l, sv);
            lemma_strip_parents(l, sv);
        }
        self.log = kept;
        self.ids = kept_ids;
        self.index_dirty = true;
        self.text_dirty = true;
    }

    /// The ancestors of `v`, `v` included; empty when the graph does not hold `v`.
    pub fn ancestors(&self, v: &Vertex) -> (r: Vec<Vertex>)
        requires
            self.wf(),
        ensures
            !has_vertex(self@.log, v@) ==> r@.len() == 0,
            has_vertex(self@.log, v@) ==> exists|j: int|
                0 <= j < self@.log.len() && #[trigger] self@.log[j].vertex == v@
                    && vertices_view(r@).to_set() == ancestor_set(self@.log, j),
    {
        let j = match find_vertex(&self.log, v) {
            Some(j) => j,
            None => return Vec::new(),
        };
        let ghost l = self@.log;
        let n: usize = self.log.len();
        let mut marked: Vec<bool> = Vec::new();
        while marked.len() < n
            invariant
                marked.len() <= n,
                forall|k: int| 0 <= k < marked.len() ==> !marked@[k],
            decreases n - marked.len(),
        {
            marked.push(false);
        }
        marked.set(j, true);
        let mut m: usize = j + 1;
        while m > 0
            invariant
                l == self@.log,
                n == l.len(),
                j < n,
                marked.len() == n,
                0 <= m <= j + 1,
                forall|k: int| m <= k < n ==> marked@[k] == is_ancestor_index(l, k, j as int),
                forall|k: int| 0 <= k < m ==> marked@[k] == (k == j || exists|q: int|
                    m <= q <= j && marked@[q] && #[trigger] parent_index(l, k, q)),
            decreases m,
        {
            m = m - 1;
            assert(marked@[m as int] == is_ancestor_index(l, m as int, j as int));
            let ghost start = marked@;
            assert forall|a: int| 0 <= a < m implies start[a] == (a == j || exists|q: int|
                m + 1 <= q <= j && start[q] && #[trigger] parent_index(l, a, q)) by {
                assert(a < m + 1);
            }
            if marked[m] {
                let ghost before = marked@;
                let mut k: usize = 0;
                while k < m
                    invariant
                        l == self@.log,
                        n == l.len(),
                        m < n,
                        marked.len() == n,
                        0 <= k <= m,
                        before.len() == n,
                        before[m as int],
                        forall|a: int| 0 <= a < k ==> marked@[a] == (before[a] || parent_index(l, a, m as int)),
                        forall|a: int| k <= a < n ==> marked@[a] == before[a],
                    decreases m - k,
                {
                    let ghost cur = marked@;
                    assert forall|a: int| 0 <= a < k implies cur[a] == (before[a] || parent_index(l, a, m as int)) by {
                        assert(marked@[a] == (before[a] || parent_index(l, a, m as int)));
                    }
                    if contains_vertex(&self.log[m].parents, &self.log[k].vertex) {
                        assert(parent_index(l, k as int, m as int));
                        marked.set(k, true);
                    } else {
                        assert(!parent_index(l, k as int, m as int));
                    }
                    assert(marked@[k as int] == (before[k as int] || parent_index(l, k as int, m as int)));
                    assert forall|a: int| 0 <= a < k + 1 implies marked@[a] == (before[a] || parent_index(l, a, m as int)) by {
                        if a < k {
                            assert(marked@[a] == cur[a]);
                        }
                    }
                    k = k + 1;
                }
                proof {
                    assert forall|a: int| 0 <= a < m implies marked@[a] == (a == j || exists|q: int|
                        m <= q <= j && marked@[q] && #[trigger] parent_index(l, a, q)) by {
                        assert(before[a] == (a == j || exists|q: int|
                            m + 1 <= q <= j && before[q] && #[trigger] parent_index(l, a, q)));
                        if parent_index(l, a, m as int) {
                            assert(m <= m <= j && marked@[m as int]);
                        }
                        if exists|q: int| m + 1 <= q <= j && before[q] && #[trigger] parent_index(l, a, q) {
                            let q = choose|q: int| m + 1 <= q <= j && before[q] && #[trigger] parent_index(l, a, q);
                            assert(marked@[q]);
                        }
                        if exists|q: int| m <= q <= j && marked@[q] && #[trigger] parent_index(l, a, q) {
                            let q = choose|q: int| m <= q <= j && marked@[q] && #[trigger] parent_index(l, a, q);
                            if q > m {
                                assert(before[q]);
                            }
                        }
                    }
                }
            } else {
                proof {
                    assert forall|a: int| 0 <= a < m implies marked@[a] == (a == j || exists|q: int|
                        m <= q <= j && marked@[q] && #[trigger] parent_index(l, a, q)) by {
                        assert(start[a] == (a == j || exists|q: int|
                            m + 1 <= q <= j && start[q] && #[trigger] parent_index(l, a, q)));
                        if exists|q: int| m + 1 <= q <= j && marked@[q] && #[trigger] parent_index(l, a, q) {
                            let q = choose|q: int| m + 1 <= q <= j && marked@[q] && #[trigger] parent_index(l, a, q);
                            assert(m <= q <= j);
                        }
                        if exists|q: int| m <= q <= j && marked@[q] && #[trigger] parent_index(l, a, q) {
                            let q = choose|q: int| m <= q <= j && marked@[q] && #[trigger] parent_index(l, a, q);
                            assert(q != m);
                        }
                    }
                }
            }
        }
        let out = self.collect_marked(&marked);
        assert(vertices_view(out@).to_set() =~= ancestor_set(l, j as int));
        assert(l[j as int].vertex == v@);
        out
    }

    /// A copy of every committed node's record, in id order.
    pub fn records_copy(&self) -> (r: Vec<CommitRecord>)
        ensures
            records_view(r@) == self@.log,
    {
        let mut out: Vec<CommitRecord> = Vec::new();
        let mut i: usize = 0;
        while i < self.log.len()
            invariant
                0 <= i <= self.log.len(),
                out.len() == i,
                forall|k: int| 0 <= k < i ==> out@[k]@ == self.log@[k]@,
            decreases self.log.len() - i,
        {
            out.push(self.log[i].duplicate());
            i = i + 1;
        }
        assert(records_view(out@) =~= records_view(self.log@));
        out
    }

    /// The vertices of the nodes that `marked` selects.
    fn collect_marked(&self, marked: &Vec<bool>) -> (r: Vec<Vertex>)
        requires
            marked.len() == self@.log.len(),
        ensures
            vertices_view(r@).to_set() == Set::new(|x: Seq<u8>| exists|k: int|
                0 <= k < self@.log.len() && self@.log[k].vertex == x && marked@[k]),
    {
        let ghost l = self@.log;
        let n: usize = self.log.len();
        let mut out: Vec<Vertex> = Vec::new();
        let mut i: usize = 0;
        while i < n
            invariant
                l == self@.log,
                n == l.len(),
                marked.len() == n,
                0 <= i <= n,
                forall|x: Seq<u8>| vertices_view(out@).contains(x) <==> exists|k: int|
                    0 <= k < i && l[k].vertex == x && marked@[k],
            decreases n - i,
        {
            if marked[i] {
                let ghost before = vertices_view(out@);
                out.push(self.log[i].vertex.duplicate());
                proof {
                    assert(vertices_view(out@) =~= before.push(l[i as int].vertex));
                    assert forall|x: Seq<u8>| vertices_view(out@).contains(x) <==> exists|k: int|
                        0 <= k < i + 1 && l[k].vertex == x && marked@[k] by {
                        if vertices_view(out@).contains(x) && x != l[i as int].vertex {
                            let t = choose|t: int| 0 <= t < vertices_view(out@).len() && vertices_view(out@)[t] == x;
                            assert(before[t] == x);
                            assert(before.contains(x));
                        }
                        if exists|k: int| 0 <= k < i + 1 && l[k].vertex == x && marked@[k] {
                            let k = choose|k: int| 0 <= k < i + 1 && l[k].vertex == x && marked@[k];
                            if k < i {
                                assert(exists|k2: int| 0 <= k2 < i && l[k2].vertex == x && marked@[k2]);
                                assert(before.contains(x));
                                let t = choose|t: int| 0 <= t < before.len() && before[t] == x;
                                assert(vertices_view(out@)[t] == x);
                            } else {
                                assert(vertices_view(out@)[before.len() as int] == x);
                            }
                        }
                    }
                }
            }
            i = i + 1;
        }
        assert(vertices_view(out@).to_set() =~= Set::new(|x: Seq<u8>| exists|k: int|
            0 <= k < l.len() && l[k].vertex == x && marked@[k]));
        out
    }

    /// The descendants of `v`, `v` included; empty when the graph does not hold `v`.
    pub fn descendants(&self, v: &Vertex) -> (r: Vec<Vertex>)
        requires
            self.wf(),
        ensures
            !has_vertex(self@.log, v@) ==> r@.len() == 0,
            has_vertex(self@.log, v@) ==> exists|j: int|
                0 <= j < self@.log.len() && #[trigger] self@.log[j].vertex == v@
                    && vertices_view(r@).to_set() == descendant_set(self@.log, j),
    {
        let j = match find_vertex(&self.log, v) {
            Some(j) => j,
            None => return Vec::new(),
        };
        let ghost l = self@.log;
        let n: usize = self.log.len();
        let mut marked: Vec<bool> = Vec::new();
        while marked.len() < n
            invariant
                l == self@.log,
                n == l.len(),
                j < n,
                marked.len() <= n,
                forall|k: int| 0 <= k < marked.len() ==> marked@[k] == is_descendant_index(l, k, j as int),
            decreases n - marked.len(),
        {
            let q: usize = marked.len();
            if q <= j {
                marked.push(q == j);
            } else {
                let mut found = false;
                let mut k: usize = j;
                while k < q && !found
                    invariant
                        l == self@.log,
                        n == l.len(),
                        j <= k <= q < n,
                        marked.len() == q,
                        forall|a: int| 0 <= a < q ==> marked@[a] == is_descendant_index(l, a, j as int),
                        found ==> exists|a: int| j <= a < q && parent_index(l, a, q as int) && is_descendant_index(l, a, j as int),
                        !found ==> forall|a: int| j <= a < k ==> !(parent_index(l, a, q as int) && is_descendant_index(l, a, j as int)),
                    decreases q - k,
                {
                    if marked[k] && contains_vertex(&self.log[q].parents, &self.log[k].vertex) {
                        assert(parent_index(l, k as int, q as int));
                        found = true;
                    }
                    k = k + 1;
                }
                proof {
                    if !found {
                        assert forall|a: int| j <= a < q implies !(parent_index(l, a, q as int) && is_descendant_index(l, a, j as int)) by {}
                    }
                }
                marked.push(found);
            }
        }
        let out = self.collect_marked(&marked);
        assert(vertices_view(out@).to_set() =~= descendant_set(l, j as int));
        assert(l[j as int].vertex == v@);
        out
    }

    /// The committed vertices whose hash starts with `prefix`, in id order.
    pub fn vertices_with_prefix(&self, prefix: &Vec<u8>) -> (r: Vec<Vertex>)
        requires
            self.wf(),
        ensures
            vertices_view(r@).to_set() == prefix_set(self@.log, prefix@),
    {
        let ghost l = self@.log;
        let n: usize = self.log.len();
        let mut marked: Vec<bool> = Vec::new();
        while marked.len() < n
            invariant
                l == self@.log,
                n == l.len(),
                marked.len() <= n,
                forall|k: int| 0 <= k < marked.len() ==> marked@[k] == is_prefix(prefix@, l[k].vertex),
            decreases n - marked.len(),
        {
            let q: usize = marked.len();
            let hash = &self.log[q].vertex.hash;
            let mut ok = prefix.len() <= hash.len();
            let mut k: usize = 0;
            while ok && k < prefix.len()
                invariant
                    ok ==> prefix.len() <= hash.len(),
                    0 <= k <= prefix.len(),
                    ok ==> forall|a: int| 0 <= a < k ==> hash@[a] == prefix@[a],
                    !ok ==> !is_prefix(prefix@, hash@),
                decreases prefix.len() - k,
            {
                if hash[k] != prefix[k] {
                    ok = false;
                    assert(hash@.take(prefix.len() as int)[k as int] != prefix@[k as int]);
                }
                k = k + 1;
            }
            proof {
                if ok {
                    assert(hash@.take(prefix.len() as int) =~= prefix@);
                }
                assert(l[q as int].vertex == hash@);
            }
            marked.push(ok);
        }
        let out = self.collect_marked(&marked);
        assert(vertices_view(out@).to_set() =~= prefix_set(l, prefix@)) by {
            assert forall|x: Seq<u8>| prefix_set(l, prefix@).contains(x) implies exists|k: int|
                0 <= k < l.len() && l[k].vertex == x && marked@[k] by {
                let k = choose|k: int| 0 <= k < l.len() && l[k].vertex == x;
                assert(marked@[k]);
            }
        }
        out
    }

    /// Whether `a` is an ancestor of `b` (every vertex is its own); false when either is absent.
    pub fn is_ancestor(&self, a: &Vertex, b: &Vertex) -> (r: bool)
        requires
            self.wf(),
        ensures
            r == exists|i: int, j: int|
                0 <= i < self@.log.len() && 0 <= j < self@.log.len() && self@.log[i].vertex == a@
                    && self@.log[j].vertex == b@ && #[trigger] is_ancestor_index(self@.log, i, j),
    {
        let ghost l = self@.log;
        let anc = self.ancestors(b);
        let r = contains_vertex(&anc, a);
        proof {
            if has_vertex(l, b@) {
                let j = choose|j: int|
                    0 <= j < l.len() && #[trigger] l[j].vertex == b@
                        && vertices_view(anc@).to_set() == ancestor_set(l, j);
                assert(vertices_view(anc@).contains(a@) == vertices_view(anc@).to_set().contains(a@));
                if r {
                    assert(ancestor_set(l, j).contains(a@));
                    let i = choose|i: int| 0 <= i < l.len() && l[i].vertex == a@ && is_ancestor_index(l, i, j);
                    assert(is_ancestor_index(l, i, j));
                }
                if exists|i: int, j2: int|
                    0 <= i < l.len() && 0 <= j2 < l.len() && l[i].vertex == a@ && l[j2].vertex == b@
                        && #[trigger] is_ancestor_index(l, i, j2) {
                    let (i, j2) = choose|i: int, j2: int|
                        0 <= i < l.len() && 0 <= j2 < l.len() && l[i].vertex == a@ && l[j2].vertex == b@
                            && #[trigger] is_ancestor_index(l, i, j2);
                    assert(j2 == j);
                    assert(ancestor_set(l, j).contains(a@));
                }
            } else {
                assert(!vertices_view(anc@).contains(a@));
            }
        }
        r
    }

    /// The committed vertices that have no children in the graph.
    pub fn heads(&self) -> (r: Vec<Vertex>)
        requires
            self.wf(),
        ensures
            vertices_view(r@).to_set() == heads_set(self@.log),
    {
        let ghost l = self@.log;
        let n: usize = self.log.len();
        let mut marked: Vec<bool> = Vec::new();
        while marked.len() < n
            invariant
                l == self@.log,
                n == l.len(),
                marked.len() <= n,
                forall|k: int| 0 <= k < marked.len() ==> marked@[k] == forall|q: int| !#[trigger] parent_index(l, k, q),
            decreases n - marked.len(),
        {
            let j: usize = marked.len();
            let mut head = true;
            let mut q: usize = j + 1;
            while head && q < n
                invariant
                    l == self@.log,
                    n == l.len(),
                    j < n,
                    j + 1 <= q <= n,
                    head ==> forall|q2: int| q2 < q ==> !#[trigger] parent_index(l, j as int, q2),
                    !head ==> exists|q2: int| #[trigger] parent_index(l, j as int, q2),
                decreases n - q,
            {
                if contains_vertex(&self.log[q].parents, &self.log[j].vertex) {
                    assert(parent_index(l, j as int, q as int));
                    head = false;
                } else {
                    assert(!parent_index(l, j as int, q as int));
                }
                q = q + 1;
            }
            proof {
                if head {
                    assert forall|q2: int| !#[trigger] parent_index(l, j as int, q2) by {
                        if q2 >= n {
                            assert(!parent_index(l, j as int, q2));
                        }
                    }
                }
            }
            marked.push(head);
        }
        let out = self.collect_marked(&marked);
        assert(vertices_view(out@).to_set() =~= heads_set(l)) by {
            assert forall|x: Seq<u8>| vertices_view(out@).to_set().contains(x) == heads_set(l).contains(x) by {
                if heads_set(l).contains(x) {
                    let k = choose|k: int| 0 <= k < l.len() && l[k].vertex == x && forall|q: int| !#[trigger] parent_index(l, k, q);
                    assert(marked@[k]);
                }
                if vertices_view(out@).to_set().contains(x) {
                    let k = choose|k: int| 0 <= k < l.len() && l[k].vertex == x && marked@[k];
                    assert(forall|q: int| !#[trigger] parent_index(l, k, q));
                }
            }
        }
        out
    }

    /// The committed vertices that have no parents.
    pub fn roots(&self) -> (r: Vec<Vertex>)
        requires
            self.wf(),
        ensures
            vertices_view(r@).to_set() == roots_set(self@.log),
    {
        let ghost l = self@.log;
        let n: usize = self.log.len();
        let mut marked: Vec<bool> = Vec::new();
        while marked.len() < n
            invariant
                l == self@.log,
                n == l.len(),
                marked.len() <= n,
                forall|k: int| 0 <= k < marked.len() ==> marked@[k] == (l[k].parents.len() == 0),
            decreases n - marked.len(),
        {
            let j: usize = marked.len();
            assert(l[j as int].parents.len() == self.log@[j as int].parents@.len());
            marked.push(self.log[j].parents.len() == 0);
        }
        let out = self.collect_marked(&marked);
        assert(vertices_view(out@).to_set() =~= roots_set(l)) by {
            assert forall|x: Seq<u8>| vertices_view(out@).to_set().contains(x) == roots_set(l).contains(x) by {
                if roots_set(l).contains(x) {
                    let k = choose|k: int| 0 <= k < l.len() && l[k].vertex == x && l[k].parents.len() == 0;
                    assert(marked@[k]);
                }
                if vertices_view(out@).to_set().contains(x) {
                    let k = choose|k: int| 0 <= k < l.len() && l[k].vertex == x && marked@[k];
                    assert(l[k].parents.len() == 0);
                }
            }
        }
        out
    }
}

/// In a well-formed graph, ids and vertices correspond one to one: two nodes share an id
/// exactly when they share a vertex, exactly when they are the same node.
pub proof fn lemma_id_bijection(g: &GraphStore, i: int, j: int)
    requires
        g.wf(),
        0 <= i < g@.log.len(),
        0 <= j < g@.log.len(),
    ensures
        (g@.ids[i] == g@.ids[j]) <==> (i == j),
        (g@.log[i].vertex == g@.log[j].vertex) <==> (i == j),
{
    if i < j {
        assert(g@.ids[i] < g@.ids[j]);
    } else if j < i {
        assert(g@.ids[j] < g@.ids[i]);
    }
}

} // verus!
