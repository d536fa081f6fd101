//! The document graph: nodes from metadata entries, undirected weighted edges
//! from the references between documents.
use vstd::prelude::*;
use crate::node::{fresh_data, Node, BinaryNodeData};
use crate::text::{
    chars_eq, chars_lt, chars_of, chars_of_string, decimal, lemma_seq_lt_irreflexive,
    lemma_seq_lt_total, lemma_seq_lt_transitive, push_decimal, seq_lt, string_of,
};

verus! {

/// What ingestion recorded about one document.
#[derive(Clone, Debug)]
pub struct MetadataEntry {
    pub file_name: String,
    pub file_size: u64,
    pub hyperlink_count: u64,
    pub sha1: String,
    /// Seconds since the Unix epoch.
    pub last_modified: u64,
    /// Referenced document name and how often it is referenced.
    pub topic_counts: Vec<(String, u64)>,
}

/// An undirected edge, stored with `source` before `target` in `seq_lt` order.
#[derive(Clone, Debug)]
pub struct Edge {
    pub source: String,
    pub target: String,
    /// Sum of the reference counts in both directions.
    pub weight: u64,
}

/// Nodes in insertion order, edges sorted by endpoint pair, and the metadata
/// the graph was built from.
#[derive(Clone, Debug)]
pub struct GraphData {
    pub nodes: Vec<Node>,
    pub edges: Vec<Edge>,
    pub metadata: Vec<MetadataEntry>,
}

pub open spec fn has_md_suffix(s: Seq<char>) -> bool {
    &&& s.len() >= 3
    &&& s[s.len() - 3] == '.'
    &&& s[s.len() - 2] == 'm'
    &&& s[s.len() - 1] == 'd'
}

/// The name with every trailing `.md` removed.
pub open spec fn strip_md(s: Seq<char>) -> Seq<char>
    decreases s.len(),
{
    if has_md_suffix(s) {
        strip_md(s.subrange(0, s.len() - 3))
    } else {
        s
    }
}

pub open spec fn entry_id(e: MetadataEntry) -> Seq<char> {
    strip_md(e.file_name@)
}

/// The distinct ids of the first `n` entries, in order of first appearance.
pub open spec fn node_ids(es: Seq<MetadataEntry>, n: nat) -> Seq<Seq<char>>
    decreases n,
{
    if n == 0 {
        Seq::empty()
    } else {
        let p = node_ids(es, (n - 1) as nat);
        if p.contains(entry_id(es[n - 1])) {
            p
        } else {
            p.push(entry_id(es[n - 1]))
        }
    }
}

/// For each id of `node_ids(es, n)`, the entry where it first appears.
pub open spec fn node_sources(es: Seq<MetadataEntry>, n: nat) -> Seq<int>
    decreases n,
{
    if n == 0 {
        Seq::empty()
    } else {
        let p = node_sources(es, (n - 1) as nat);
        if node_ids(es, (n - 1) as nat).contains(entry_id(es[n - 1])) {
            p
        } else {
            p.push(n - 1)
        }
    }
}

pub open spec fn graph_ids(es: Seq<MetadataEntry>) -> Seq<Seq<char>> {
    node_ids(es, es.len())
}

pub open spec fn graph_sources(es: Seq<MetadataEntry>) -> Seq<int> {
    node_sources(es, es.len())
}

/// The node that the builder makes from entry `e`, with mass `mass`.
pub open spec fn node_from_entry(n: Node, e: MetadataEntry, mass: u8) -> bool {
    &&& n.id@ == entry_id(e)
    &&& n.label@ == entry_id(e)
    &&& n.data == (BinaryNodeData { mass, ..fresh_data() })
    &&& n.file_size == e.file_size
    &&& n.metadata@.len() == 3
    &&& n.metadata@[0].0@ == "fileSize"@ && n.metadata@[0].1@ == decimal(e.file_size as nat)
    &&& n.metadata@[1].0@ == "hyperlinkCount"@ && n.metadata@[1].1@ == decimal(
        e.hyperlink_count as nat,
    )
    &&& n.metadata@[2].0@ == "lastModified"@ && n.metadata@[2].1@ == decimal(
        e.last_modified as nat,
    )
}

/// The decimal form of `n` as a string.
fn decimal_string(n: u64) -> (r: String)
    ensures
        r@ == decimal(n as nat),
{
    let mut digits: Vec<char> = Vec::new();
    push_decimal(&mut digits, n);
    assert(digits@ =~= decimal(n as nat));
    string_of(&digits)
}

pub open spec fn views(s: Seq<Vec<char>>) -> Seq<Seq<char>> {
    s.map_values(|v: Vec<char>| v@)
}

proof fn lemma_node_ids_shape(es: Seq<MetadataEntry>, n: nat)
    requires
        n <= es.len(),
    ensures
        node_sources(es, n).len() == node_ids(es, n).len(),
        forall|i: int|
            0 <= i < node_ids(es, n).len() ==> {
                &&& 0 <= #[trigger] node_sources(es, n)[i] < n
                &&& node_ids(es, n)[i] == entry_id(es[node_sources(es, n)[i]])
            },
        node_ids(es, n).no_duplicates(),
        forall|k: int| 0 <= k < n ==> node_ids(es, n).contains(#[trigger] entry_id(es[k])),
    decreases n,
{
    if n > 0 {
        lemma_node_ids_shape(es, (n - 1) as nat);
        let p = node_ids(es, (n - 1) as nat);
        let id = entry_id(es[n - 1]);
        if !p.contains(id) {
            assert forall|k: int| 0 <= k < n implies node_ids(es, n).contains(
                #[trigger] entry_id(es[k]),
            ) by {
                if k < n - 1 {
                    let j = choose|j: int| 0 <= j < p.len() && p[j] == entry_id(es[k]);
                    assert(node_ids(es, n)[j] == entry_id(es[k]));
                } else {
                    assert(node_ids(es, n)[p.len() as int] == id);
                }
            }
        }
    }
}

fn strip_md_suffix(s: Vec<char>) -> (r: Vec<char>)
    ensures
        r@ == strip_md(s@),
{
    let mut s = s;
    let ghost orig = s@;
    let mut n: usize = s.len();
    assert(orig.subrange(0, n as int) =~= orig);
    while n >= 3 && s[n - 3] == '.' && s[n - 2] == 'm' && s[n - 1] == 'd'
        invariant
            s@ == orig,
            n <= s.len(),
            strip_md(orig) == strip_md(orig.subrange(0, n as int)),
        decreases n,
    {
        assert(orig.subrange(0, n as int).subrange(0, n - 3) =~= orig.subrange(0, n - 3));
        n -= 3;
    }
    s.truncate(n);
    s
}

/// The index of `id` among `ids`, if it is there.
fn find_id(ids: &Vec<Vec<char>>, id: &Vec<char>) -> (r: Option<usize>)
    ensures
        match r {
            Some(k) => k < ids@.len() && ids@[k as int]@ == id@,
            None => !views(ids@).contains(id@),
        },
{
    let mut k: usize = 0;
    while k < ids.len()
        invariant
            k <= ids.len(),
            forall|j: int| 0 <= j < k ==> ids@[j]@ != id@,
        decreases ids.len() - k,
    {
        if chars_eq(&ids[k], id) {
            return Some(k);
        }
        k += 1;
    }
    assert(!views(ids@).contains(id@)) by {
        if views(ids@).contains(id@) {
            let j = choose|j: int| 0 <= j < views(ids@).len() && views(ids@)[j] == id@;
            assert(ids@[j]@ == id@);
        }
    }
    None
}

/// The node ids of the entries, in order of first appearance, with the nodes
/// made from them.
fn build_nodes(metadata: &Vec<MetadataEntry>, masses: &Vec<u8>) -> (r: (Vec<Vec<char>>, Vec<Node>))
    requires
        masses@.len() == metadata@.len(),
    ensures
        views(r.0@) == graph_ids(metadata@),
        r.1@.len() == graph_ids(metadata@).len(),
        forall|i: int|
            0 <= i < r.1@.len() ==> node_from_entry(
                #[trigger] r.1@[i],
                metadata@[graph_sources(metadata@)[i]],
                masses@[graph_sources(metadata@)[i]],
            ),
{
    let ghost es = metadata@;
    let mut ids: Vec<Vec<char>> = Vec::new();
    let mut nodes: Vec<Node> = Vec::new();
    let mut i: usize = 0;
    while i < metadata.len()
        invariant
            es == metadata@,
            masses@.len() == es.len(),
            i <= es.len(),
            views(ids@) == node_ids(es, i as nat),
            nodes@.len() == node_ids(es, i as nat).len(),
            forall|j: int|
                0 <= j < nodes@.len() ==> node_from_entry(
                    #[trigger] nodes@[j],
                    es[node_sources(es, i as nat)[j]],
                    masses@[node_sources(es, i as nat)[j]],
                ),
        decreases es.len() - i,
    {
        let entry = &metadata[i];
        let id = strip_md_suffix(chars_of(entry.file_name.as_str()));
        proof {
            lemma_node_ids_shape(es, i as nat);
        }
        match find_id(&ids, &id) {
            Some(k) => {
                assert(node_ids(es, i as nat)[k as int] == id@);
                assert(node_ids(es, i as nat).contains(id@));
            },
            None => {
                let id_string = string_of(&id);
                let mut node = Node::new(id_string);
                node.set_file_size(entry.file_size, masses[i]);
                node.metadata.push((String::from_str("fileSize"), decimal_string(entry.file_size)));
                node.metadata.push(
                    (String::from_str("hyperlinkCount"), decimal_string(entry.hyperlink_count)),
                );
                node.metadata.push(
                    (String::from_str("lastModified"), decimal_string(entry.last_modified)),
                );
                ids.push(id);
                nodes.push(node);
                assert(views(ids@) =~= node_ids(es, (i + 1) as nat));
            },
        }
        i += 1;
    }
    (ids, nodes)
}

/// A reference between documents: source id, target id and count.
pub type Reference = (Seq<char>, Seq<char>, nat);

/// The references recorded by the first `n` topic counts of `e`.
pub open spec fn topic_refs(e: MetadataEntry, n: nat) -> Seq<Reference>
    decreases n,
{
    if n == 0 {
        Seq::empty()
    } else {
        let t = e.topic_counts@[n - 1];
        topic_refs(e, (n - 1) as nat).push((entry_id(e), strip_md(t.0@), t.1 as nat))
    }
}

pub open spec fn entry_refs(e: MetadataEntry) -> Seq<Reference> {
    topic_refs(e, e.topic_counts@.len())
}

/// All references of the first `n` entries, in order.
pub open spec fn refs_upto(es: Seq<MetadataEntry>, n: nat) -> Seq<Reference>
    decreases n,
{
    if n == 0 {
        Seq::empty()
    } else {
        refs_upto(es, (n - 1) as nat) + entry_refs(es[n - 1])
    }
}

pub open spec fn graph_refs(es: Seq<MetadataEntry>) -> Seq<Reference> {
    refs_upto(es, es.len())
}

/// A reference makes an edge when it joins two different documents of the graph.
pub open spec fn links(r: Reference, ids: Seq<Seq<char>>) -> bool {
    r.0 != r.1 && ids.contains(r.1)
}

/// The unordered pair `{a, b}` written smaller first.
pub open spec fn ordered_pair(a: Seq<char>, b: Seq<char>) -> (Seq<char>, Seq<char>) {
    if seq_lt(a, b) {
        (a, b)
    } else {
        (b, a)
    }
}

/// Sum of the counts of the linking references in `rs` between `a` and `b`,
/// where `(a, b)` is an ordered pair.
pub open spec fn pair_total(rs: Seq<Reference>, ids: Seq<Seq<char>>, a: Seq<char>, b: Seq<char>) -> nat
    decreases rs.len(),
{
    if rs.len() == 0 {
        0
    } else {
        let r = rs.last();
        pair_total(rs.drop_last(), ids, a, b) + if links(r, ids) && ordered_pair(r.0, r.1) == (
        a,
        b,
        ) {
            r.2
        } else {
            0
        }
    }
}

/// Sum of the counts of the references in `rs` from `s` to `t`.
pub open spec fn directed_total(rs: Seq<Reference>, s: Seq<char>, t: Seq<char>) -> nat
    decreases rs.len(),
{
    if rs.len() == 0 {
        0
    } else {
        let r = rs.last();
        directed_total(rs.drop_last(), s, t) + if r.0 == s && r.1 == t {
            r.2
        } else {
            0
        }
    }
}

/// The weight that the metadata gives the ordered pair `(a, b)`.
pub open spec fn edge_weight(es: Seq<MetadataEntry>, a: Seq<char>, b: Seq<char>) -> nat {
    pair_total(graph_refs(es), graph_ids(es), a, b)
}

pub open spec fn pair_lt(p: (Seq<char>, Seq<char>), q: (Seq<char>, Seq<char>)) -> bool {
    seq_lt(p.0, q.0) || (p.0 == q.0 && seq_lt(p.1, q.1))
}

pub open spec fn edge_key(e: Edge) -> (Seq<char>, Seq<char>) {
    (e.source@, e.target@)
}

pub open spec fn clamp_weight(t: nat) -> u64 {
    if t > u64::MAX {
        u64::MAX
    } else {
        t as u64
    }
}

pub open spec fn edges_sorted(s: Seq<Edge>) -> bool {
    forall|i: int, j: int|
        0 <= i < j < s.len() ==> pair_lt(#[trigger] edge_key(s[i]), #[trigger] edge_key(s[j]))
}

/// `s` holds exactly one edge per pair with a positive total in `rs`, sorted,
/// each weighing that total (held at `u64::MAX` at most).
pub open spec fn edges_exact(s: Seq<Edge>, rs: Seq<Reference>, ids: Seq<Seq<char>>) -> bool {
    &&& edges_sorted(s)
    &&& forall|i: int|
        0 <= i < s.len() ==> {
            &&& seq_lt(#[trigger] s[i].source@, s[i].target@)
            &&& pair_total(rs, ids, s[i].source@, s[i].target@) > 0
            &&& s[i].weight == clamp_weight(pair_total(rs, ids, s[i].source@, s[i].target@))
        }
    &&& forall|a: Seq<char>, b: Seq<char>|
        #[trigger] pair_total(rs, ids, a, b) > 0 ==> exists|i: int|
            0 <= i < s.len() && #[trigger] edge_key(s[i]) == (a, b)
}

proof fn lemma_pair_lt_order(p: (Seq<char>, Seq<char>), q: (Seq<char>, Seq<char>), r: (Seq<char>, Seq<char>))
    ensures
        !pair_lt(p, p),
        p != q ==> pair_lt(p, q) || pair_lt(q, p),
        !(pair_lt(p, q) && pair_lt(q, p)),
        pair_lt(p, q) && pair_lt(q, r) ==> pair_lt(p, r),
{
    lemma_seq_lt_irreflexive(p.0);
    lemma_seq_lt_irreflexive(p.1);
    lemma_seq_lt_total(p.0, q.0);
    lemma_seq_lt_total(p.1, q.1);
    if pair_lt(p, q) && pair_lt(q, r) {
        if seq_lt(p.0, q.0) && seq_lt(q.0, r.0) {
            lemma_seq_lt_transitive(p.0, q.0, r.0);
        }
        if p.0 == q.0 && q.0 == r.0 {
            lemma_seq_lt_transitive(p.1, q.1, r.1);
        }
    }
}

proof fn lemma_pair_total_push(rs: Seq<Reference>, r: Reference, ids: Seq<Seq<char>>)
    ensures
        forall|a: Seq<char>, b: Seq<char>|
            #[trigger] pair_total(rs.push(r), ids, a, b) == pair_total(rs, ids, a, b) + if links(
                r,
                ids,
            ) && ordered_pair(r.0, r.1) == (a, b) {
                r.2
            } else {
                0
            },
{
    assert(rs.push(r).drop_last() =~= rs);
}

/// Whether the key of `e` comes before `(a, b)`.
fn key_before(e: &Edge, a: &Vec<char>, b: &Vec<char>) -> (r: bool)
    ensures
        r == pair_lt(edge_key(*e), (a@, b@)),
{
    let s = chars_of_string(&e.source);
    let t = chars_of_string(&e.target);
    chars_lt(&s, a) || (chars_eq(&s, a) && chars_lt(&t, b))
}

fn key_equals(e: &Edge, a: &Vec<char>, b: &Vec<char>) -> (r: bool)
    ensures
        r == (edge_key(*e) == (a@, b@)),
{
    let s = chars_of_string(&e.source);
    let t = chars_of_string(&e.target);
    chars_eq(&s, a) && chars_eq(&t, b)
}

/// Adds the count of one linking reference to the edge of its pair.
fn add_reference(
    edges: &mut Vec<Edge>,
    a: Vec<char>,
    b: Vec<char>,
    c: u64,
    Ghost(rs): Ghost<Seq<Reference>>,
    Ghost(r): Ghost<Reference>,
    Ghost(ids): Ghost<Seq<Seq<char>>>,
)
    requires
        edges_exact(old(edges)@, rs, ids),
        links(r, ids),
        ordered_pair(r.0, r.1) == (a@, b@),
        r.2 == c,
        c > 0,
    ensures
        edges_exact(final(edges)@, rs.push(r), ids),
{
    let ghost old_edges = edges@;
    let ghost k = (a@, b@);
    let ghost rs2 = rs.push(r);
    proof {
        lemma_seq_lt_total(r.0, r.1);
        lemma_pair_total_push(rs, r, ids);
        assert(seq_lt(a@, b@));
    }
    let mut p: usize = 0;
    let mut found = false;
    while !found && p < edges.len()
        invariant
            p <= edges@.len(),
            edges@ == old_edges,
            k == (a@, b@),
            forall|j: int| 0 <= j < p ==> pair_lt(#[trigger] edge_key(edges@[j]), k),
            found ==> p < edges@.len() && !pair_lt(edge_key(edges@[p as int]), k),
        decreases edges@.len() - p + if found { 0int } else { 1int },
    {
        if key_before(&edges[p], &a, &b) {
            p += 1;
        } else {
            found = true;
        }
    }
    if p < edges.len() && key_equals(&edges[p], &a, &b) {
        let mut e = edges.remove(p);
        let ghost t = pair_total(rs, ids, a@, b@);
        assert(e.weight == clamp_weight(t));
        e.weight = if e.weight > u64::MAX - c { u64::MAX } else { e.weight + c };
        assert(e.weight == clamp_weight((t + c) as nat));
        edges.insert(p, e);
        assert(edges@ =~= old_edges.update(p as int, e));
        assert forall|i: int| 0 <= i < edges@.len() && i != p implies edge_key(
            #[trigger] edges@[i],
        ) != k by {
            assert(edge_key(old_edges[i]) != edge_key(old_edges[p as int])) by {
                lemma_pair_lt_order(edge_key(old_edges[i]), edge_key(old_edges[p as int]), k);
                if i < p {
                    assert(pair_lt(edge_key(old_edges[i]), edge_key(old_edges[p as int])));
                } else {
                    assert(pair_lt(edge_key(old_edges[p as int]), edge_key(old_edges[i])));
                }
            }
        }
        assert forall|x: Seq<char>, y: Seq<char>| #[trigger]
            pair_total(rs2, ids, x, y) > 0 implies exists|i: int|
            0 <= i < edges@.len() && #[trigger] edge_key(edges@[i]) == (x, y) by {
            if (x, y) != k {
                assert(pair_total(rs, ids, x, y) > 0);
                let i = choose|i: int| 0 <= i < old_edges.len() && #[trigger] edge_key(old_edges[i]) == (x, y);
                assert(edge_key(edges@[i]) == (x, y));
            } else {
                assert(edge_key(edges@[p as int]) == (x, y));
            }
        }
    } else {
        let ghost kp = if p < old_edges.len() { edge_key(old_edges[p as int]) } else { k };
        proof {
            if p < old_edges.len() {
                lemma_pair_lt_order(kp, k, kp);
                assert(pair_lt(k, kp));
            }
        }
        assert forall|j: int| p <= j < old_edges.len() implies pair_lt(k, #[trigger] edge_key(old_edges[j])) by {
            if j > p {
                assert(pair_lt(kp, edge_key(old_edges[j])));
                lemma_pair_lt_order(k, kp, edge_key(old_edges[j]));
            }
        }
        assert(pair_total(rs, ids, a@, b@) == 0) by {
            if pair_total(rs, ids, a@, b@) > 0 {
                let i = choose|i: int| 0 <= i < old_edges.len() && #[trigger] edge_key(old_edges[i]) == k;
                lemma_pair_lt_order(k, k, k);
                if i < p {
                    assert(pair_lt(edge_key(old_edges[i]), k));
                } else {
                    assert(pair_lt(k, edge_key(old_edges[i])));
                }
            }
        }
        let e = Edge { source: string_of(&a), target: string_of(&b), weight: c };
        edges.insert(p, e);
        assert(edges@ =~= old_edges.insert(p as int, e));
        assert(edge_key(e) == k);
        assert forall|i: int, j: int| 0 <= i < j < edges@.len() implies pair_lt(
            #[trigger] edge_key(edges@[i]),
            #[trigger] edge_key(edges@[j]),
        ) by {
            if j < p {
            } else if j == p {
            } else if i < p {
                assert(pair_lt(edge_key(old_edges[i]), k));
                assert(pair_lt(k, edge_key(old_edges[j - 1])));
                lemma_pair_lt_order(edge_key(old_edges[i]), k, edge_key(old_edges[j - 1]));
            } else if i == p {
                assert(edges@[j] == old_edges[j - 1]);
            } else {
                assert(edges@[i] == old_edges[i - 1]);
                assert(edges@[j] == old_edges[j - 1]);
            }
        }
        assert forall|i: int| 0 <= i < edges@.len() implies {
            &&& seq_lt(#[trigger] edges@[i].source@, edges@[i].target@)
            &&& pair_total(rs2, ids, edges@[i].source@, edges@[i].target@) > 0
            &&& edges@[i].weight == clamp_weight(pair_total(rs2, ids, edges@[i].source@, edges@[i].target@))
        } by {
            if i < p {
                assert(edges@[i] == old_edges[i]);
                lemma_pair_lt_order(edge_key(old_edges[i]), k, k);
            } else if i > p {
                assert(edges@[i] == old_edges[i - 1]);
                lemma_pair_lt_order(edge_key(old_edges[i - 1]), k, k);
            }
        }
        assert forall|x: Seq<char>, y: Seq<char>| #[trigger]
            pair_total(rs2, ids, x, y) > 0 implies exists|i: int|
            0 <= i < edges@.len() && #[trigger] edge_key(edges@[i]) == (x, y) by {
            if (x, y) != k {
                assert(pair_total(rs, ids, x, y) > 0);
                let i = choose|i: int| 0 <= i < old_edges.len() && #[trigger] edge_key(old_edges[i]) == (x, y);
                if i < p {
                    assert(edge_key(edges@[i]) == (x, y));
                } else {
                    assert(edge_key(edges@[i + 1]) == (x, y));
                }
            } else {
                assert(edge_key(edges@[p as int]) == (x, y));
            }
        }
    }
}

fn copy_chars(v: &Vec<char>) -> (r: Vec<char>)
    ensures
        r@ == v@,
{
    let r = v.clone();
    assert(r@ =~= v@);
    r
}

/// The edges that the references of the entries make between the nodes `ids`.
fn build_edges(metadata: &Vec<MetadataEntry>, ids: &Vec<Vec<char>>) -> (r: Vec<Edge>)
    requires
        views(ids@) == graph_ids(metadata@),
    ensures
        edges_exact(r@, graph_refs(metadata@), graph_ids(metadata@)),
{
    let ghost es = metadata@;
    let ghost gids = graph_ids(es);
    let mut edges: Vec<Edge> = Vec::new();
    let mut i: usize = 0;
    while i < metadata.len()
        invariant
            es == metadata@,
            gids == graph_ids(es),
            views(ids@) == gids,
            i <= es.len(),
            edges_exact(edges@, refs_upto(es, i as nat), gids),
        decreases es.len() - i,
    {
        let entry = &metadata[i];
        let src = strip_md_suffix(chars_of_string(&entry.file_name));
        let ghost base = refs_upto(es, i as nat);
        assert(base + topic_refs(es[i as int], 0) =~= base);
        let mut j: usize = 0;
        while j < entry.topic_counts.len()
            invariant
                es == metadata@,
                gids == graph_ids(es),
                views(ids@) == gids,
                i < es.len(),
                *entry == es[i as int],
                src@ == entry_id(es[i as int]),
                base == refs_upto(es, i as nat),
                j <= entry.topic_counts@.len(),
                edges_exact(edges@, base + topic_refs(es[i as int], j as nat), gids),
            decreases entry.topic_counts@.len() - j,
        {
            let target_name = &entry.topic_counts[j].0;
            let count = entry.topic_counts[j].1;
            let tgt = strip_md_suffix(chars_of_string(target_name));
            let ghost prior = base + topic_refs(es[i as int], j as nat);
            let ghost r: Reference = (src@, tgt@, count as nat);
            proof {
                lemma_pair_total_push(prior, r, gids);
                assert(prior.push(r) =~= base + topic_refs(es[i as int], (j + 1) as nat));
            }
            if count > 0 && !chars_eq(&src, &tgt) {
                match find_id(ids, &tgt) {
                    Some(k) => {
                        assert(gids[k as int] == tgt@);
                        assert(links(r, gids));
                        if chars_lt(&src, &tgt) {
                            add_reference(&mut edges, copy_chars(&src), tgt, count, Ghost(prior), Ghost(r), Ghost(gids));
                        } else {
                            add_reference(&mut edges, tgt, copy_chars(&src), count, Ghost(prior), Ghost(r), Ghost(gids));
                        }
                    },
                    None => {
                        assert(!links(r, gids));
                    },
                }
            }
            j += 1;
        }
        assert(refs_upto(es, (i + 1) as nat) == base + entry_refs(es[i as int]));
        i += 1;
    }
    edges
}

/// Whether `g` is the graph built from the entries `es`, entry `k` giving mass `masses[k]`.
pub open spec fn graph_built(g: GraphData, es: Seq<MetadataEntry>, masses: Seq<u8>) -> bool {
    &&& g.metadata@ == es
    &&& g.nodes@.len() == graph_ids(es).len()
    &&& forall|i: int|
        0 <= i < g.nodes@.len() ==> node_from_entry(
            #[trigger] g.nodes@[i],
            es[graph_sources(es)[i]],
            masses[graph_sources(es)[i]],
        )
    &&& edges_exact(g.edges@, graph_refs(es), graph_ids(es))
}

/// Builds the graph of the entries: one node per distinct id (the file name
/// without `.md`), in order of first appearance, at the origin and at rest,
/// with mass `masses[k]` for the node of entry `k`; one edge per pair of
/// distinct nodes that reference each other, weighing the sum of the
/// reference counts in both directions, sorted by endpoint pair.
pub fn build_graph_from_metadata(metadata: Vec<MetadataEntry>, masses: &Vec<u8>) -> (r: GraphData)
    requires
        masses@.len() == metadata@.len(),
    ensures
        graph_built(r, metadata@, masses@),
{
    let (ids, nodes) = build_nodes(&metadata, masses);
    let edges = build_edges(&metadata, &ids);
    GraphData { nodes, edges, metadata }
}

proof fn lemma_topic_refs_source(e: MetadataEntry, n: nat)
    requires
        n <= e.topic_counts@.len(),
    ensures
        topic_refs(e, n).len() == n,
        forall|k: int| 0 <= k < n ==> (#[trigger] topic_refs(e, n)[k]).0 == entry_id(e),
    decreases n,
{
    if n > 0 {
        lemma_topic_refs_source(e, (n - 1) as nat);
    }
}

/// Every reference starts at a node of the graph.
proof fn lemma_refs_sources(es: Seq<MetadataEntry>, n: nat)
    requires
        n <= es.len(),
    ensures
        forall|k: int|
            0 <= k < refs_upto(es, n).len() ==> graph_ids(es).contains(
                (#[trigger] refs_upto(es, n)[k]).0,
            ),
    decreases n,
{
    if n > 0 {
        lemma_refs_sources(es, (n - 1) as nat);
        lemma_node_ids_shape(es, es.len());
        let e = es[n - 1];
        lemma_topic_refs_source(e, e.topic_counts@.len());
        let prev = refs_upto(es, (n - 1) as nat);
        assert forall|k: int| 0 <= k < refs_upto(es, n).len() implies graph_ids(es).contains(
            (#[trigger] refs_upto(es, n)[k]).0,
        ) by {
            if k < prev.len() {
                assert(refs_upto(es, n)[k] == prev[k]);
            } else {
                assert(refs_upto(es, n)[k] == entry_refs(e)[k - prev.len()]);
                assert(graph_ids(es).contains(entry_id(es[n - 1])));
            }
        }
    }
}

/// A pair with a positive total joins two different members of `ids`.
proof fn lemma_pair_total_endpoints(rs: Seq<Reference>, ids: Seq<Seq<char>>, a: Seq<char>, b: Seq<char>)
    requires
        forall|k: int| 0 <= k < rs.len() ==> ids.contains((#[trigger] rs[k]).0),
        pair_total(rs, ids, a, b) > 0,
    ensures
        ids.contains(a),
        ids.contains(b),
        seq_lt(a, b),
    decreases rs.len(),
{
    let r = rs.last();
    let init = rs.drop_last();
    if pair_total(init, ids, a, b) > 0 {
        assert forall|k: int| 0 <= k < init.len() implies ids.contains((#[trigger] init[k]).0) by {
            assert(init[k] == rs[k]);
        }
        lemma_pair_total_endpoints(init, ids, a, b);
    } else {
        assert(rs[rs.len() - 1] == r);
        lemma_seq_lt_total(r.0, r.1);
    }
}

/// The total of a pair of distinct nodes is the count from one to the other
/// plus the count back.
proof fn lemma_pair_total_symmetric(rs: Seq<Reference>, ids: Seq<Seq<char>>, s: Seq<char>, t: Seq<char>)
    requires
        ids.contains(s),
        ids.contains(t),
        s != t,
    ensures
        pair_total(rs, ids, ordered_pair(s, t).0, ordered_pair(s, t).1) == directed_total(rs, s, t)
            + directed_total(rs, t, s),
    decreases rs.len(),
{
    if rs.len() > 0 {
        lemma_pair_total_symmetric(rs.drop_last(), ids, s, t);
        let r = rs.last();
        lemma_seq_lt_total(r.0, r.1);
        lemma_seq_lt_total(s, t);
    }
}

/// Every edge of a built graph joins two different nodes of the graph and
/// weighs the references from its source to its target plus those back; for
/// any two different nodes, the weight of their pair is that sum.
pub proof fn lemma_edges_well_formed(g: GraphData, es: Seq<MetadataEntry>, masses: Seq<u8>)
    requires
        graph_built(g, es, masses),
    ensures
        forall|i: int|
            0 <= i < g.edges@.len() ==> {
                let e = #[trigger] g.edges@[i];
                &&& graph_ids(es).contains(e.source@)
                &&& graph_ids(es).contains(e.target@)
                &&& e.source@ != e.target@
                &&& e.weight == clamp_weight(
                    directed_total(graph_refs(es), e.source@, e.target@) + directed_total(
                        graph_refs(es),
                        e.target@,
                        e.source@,
                    ),
                )
            },
        forall|s: Seq<char>, t: Seq<char>|
            graph_ids(es).contains(s) && graph_ids(es).contains(t) && s != t ==> #[trigger] edge_weight(
                es,
                ordered_pair(s, t).0,
                ordered_pair(s, t).1,
            ) == directed_total(graph_refs(es), s, t) + directed_total(graph_refs(es), t, s),
{
    let rs = graph_refs(es);
    let ids = graph_ids(es);
    lemma_refs_sources(es, es.len());
    assert forall|i: int| 0 <= i < g.edges@.len() implies {
        let e = #[trigger] g.edges@[i];
        &&& ids.contains(e.source@)
        &&& ids.contains(e.target@)
        &&& e.source@ != e.target@
        &&& e.weight == clamp_weight(
            directed_total(rs, e.source@, e.target@) + directed_total(rs, e.target@, e.source@),
        )
    } by {
        let e = g.edges@[i];
        lemma_pair_total_endpoints(rs, ids, e.source@, e.target@);
        lemma_seq_lt_irreflexive(e.source@);
        lemma_pair_total_symmetric(rs, ids, e.source@, e.target@);
    }
    assert forall|s: Seq<char>, t: Seq<char>|
        ids.contains(s) && ids.contains(t) && s != t implies #[trigger] edge_weight(
        es,
        ordered_pair(s, t).0,
        ordered_pair(s, t).1,
    ) == directed_total(rs, s, t) + directed_total(rs, t, s) by {
        lemma_pair_total_symmetric(rs, ids, s, t);
    }
}

/// Some edge of `s` has the key and the weight of `e`.
pub open spec fn has_edge(s: Seq<Edge>, e: Edge) -> bool {
    exists|j: int| 0 <= j < s.len() && edge_key(s[j]) == edge_key(e) && s[j].weight == e.weight
}

/// Building twice from the same metadata gives the same nodes in the same
/// order, and the same edges with the same weights.
pub proof fn lemma_build_deterministic(
    g1: GraphData,
    g2: GraphData,
    es: Seq<MetadataEntry>,
    masses: Seq<u8>,
)
    requires
        graph_built(g1, es, masses),
        graph_built(g2, es, masses),
    ensures
        g1.nodes@.len() == g2.nodes@.len(),
        forall|i: int|
            0 <= i < g1.nodes@.len() ==> {
                &&& (#[trigger] g1.nodes@[i]).id@ == g2.nodes@[i].id@
                &&& g1.nodes@[i].label@ == g2.nodes@[i].label@
                &&& g1.nodes@[i].data == g2.nodes@[i].data
                &&& g1.nodes@[i].file_size == g2.nodes@[i].file_size
            },
        forall|i: int| 0 <= i < g1.edges@.len() ==> has_edge(g2.edges@, #[trigger] g1.edges@[i]),
        forall|j: int| 0 <= j < g2.edges@.len() ==> has_edge(g1.edges@, #[trigger] g2.edges@[j]),
{
    let rs = graph_refs(es);
    let ids = graph_ids(es);
    assert forall|i: int| 0 <= i < g1.edges@.len() implies has_edge(g2.edges@, #[trigger] g1.edges@[i]) by {
        let e = g1.edges@[i];
        assert(pair_total(rs, ids, e.source@, e.target@) > 0);
        let j = choose|j: int| 0 <= j < g2.edges@.len() && #[trigger] edge_key(g2.edges@[j]) == (e.source@, e.target@);
        assert(g2.edges@[j].source@ == e.source@);
    }
    assert forall|j: int| 0 <= j < g2.edges@.len() implies has_edge(g1.edges@, #[trigger] g2.edges@[j]) by {
        let e = g2.edges@[j];
        assert(pair_total(rs, ids, e.source@, e.target@) > 0);
        let i = choose|i: int| 0 <= i < g1.edges@.len() && #[trigger] edge_key(g1.edges@[i]) == (e.source@, e.target@);
        assert(g1.edges@[i].source@ == e.source@);
    }
}

/// The nodes of a built graph have distinct ids.
pub proof fn lemma_node_ids_unique(g: GraphData, es: Seq<MetadataEntry>, masses: Seq<u8>)
    requires
        graph_built(g, es, masses),
    ensures
        forall|i: int, j: int|
            0 <= i < j < g.nodes@.len() ==> (#[trigger] g.nodes@[i]).id@ != (#[trigger] g.nodes@[j]).id@,
{
    lemma_node_ids_shape(es, es.len());
    let ids = graph_ids(es);
    assert forall|i: int, j: int| 0 <= i < j < g.nodes@.len() implies (#[trigger] g.nodes@[i]).id@
        != (#[trigger] g.nodes@[j]).id@ by {
        assert(g.nodes@[i].id@ == ids[i]);
        assert(g.nodes@[j].id@ == ids[j]);
    }
}

} // verus!
