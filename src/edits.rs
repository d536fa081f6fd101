//! Changes to the nodes of a built graph: edits from clients, records
//! written back by the physics loop, and motion kept across a rebuild.
use vstd::prelude::*;
use crate::graph::GraphData;
use crate::node::{BinaryNodeData, Node};
use crate::text::{chars_eq, chars_of_string, decimal, push_decimal};
use crate::wire::{decode_inbound, inbound_decode, ProtocolError, WireRecord};

verus! {

/// The node after a client edit: position and velocity from the record, all
/// else as it was.
pub open spec fn moved_node(n: Node, r: WireRecord) -> Node {
    Node { data: BinaryNodeData { position: r.position, velocity: r.velocity, ..n.data }, ..n }
}

/// A record reaches the nodes whose string id is the decimal form of its
/// numeric id.
pub open spec fn apply_record(nodes: Seq<Node>, r: WireRecord) -> Seq<Node> {
    nodes.map_values(
        |n: Node|
            if n.id@ == decimal(r.id as nat) {
                moved_node(n, r)
            } else {
                n
            },
    )
}

pub open spec fn apply_records(nodes: Seq<Node>, rs: Seq<WireRecord>) -> Seq<Node>
    decreases rs.len(),
{
    if rs.len() == 0 {
        nodes
    } else {
        apply_record(apply_records(nodes, rs.drop_last()), rs.last())
    }
}

/// The effect of one client frame: its records when it is accepted, nothing otherwise.
pub open spec fn apply_frame(nodes: Seq<Node>, frame: Seq<u8>) -> Seq<Node> {
    match inbound_decode(frame) {
        Ok(rs) => apply_records(nodes, rs),
        Err(_) => nodes,
    }
}

pub open spec fn apply_frames(nodes: Seq<Node>, frames: Seq<Seq<u8>>) -> Seq<Node>
    decreases frames.len(),
{
    if frames.len() == 0 {
        nodes
    } else {
        apply_frame(apply_frames(nodes, frames.drop_last()), frames.last())
    }
}

fn apply_record_to(nodes: &mut Vec<Node>, r: WireRecord)
    ensures
        final(nodes)@ == apply_record(old(nodes)@, r),
{
    let ghost before = nodes@;
    let mut digits: Vec<char> = Vec::new();
    push_decimal(&mut digits, r.id as u64);
    assert(digits@ =~= decimal(r.id as nat));
    let mut i: usize = 0;
    while i < nodes.len()
        invariant
            nodes@.len() == before.len(),
            digits@ == decimal(r.id as nat),
            i <= nodes@.len(),
            forall|j: int| 0 <= j < i ==> nodes@[j] == #[trigger] apply_record(before, r)[j],
            forall|j: int| i <= j < nodes@.len() ==> nodes@[j] == before[j],
        decreases nodes@.len() - i,
    {
        let id = chars_of_string(&nodes[i].id);
        if chars_eq(&id, &digits) {
            nodes[i].apply_motion(r.position, r.velocity);
        }
        assert(nodes@[i as int] == apply_record(before, r)[i as int]);
        i += 1;
    }
    assert(nodes@ =~= apply_record(before, r));
}

impl GraphData {
    /// Applies a client frame of at most two records: each record overwrites
    /// the position and velocity of the node whose id is its numeric id in
    /// decimal; mass, flags and all else stay. Records for unknown ids are
    /// skipped. A frame that breaks the protocol changes nothing.
    pub fn apply_inbound_frame(&mut self, data: &[u8]) -> (r: Result<(), ProtocolError>)
        ensures
            final(self).nodes@ == apply_frame(old(self).nodes@, data@),
            final(self).edges == old(self).edges,
            final(self).metadata == old(self).metadata,
            match r {
                Ok(_) => inbound_decode(data@) is Ok,
                Err(e) => inbound_decode(data@) == Err::<Seq<WireRecord>, ProtocolError>(e),
            },
    {
        match decode_inbound(data) {
            Err(e) => Err(e),
            Ok(records) => {
                let ghost rs = records@;
                let mut i: usize = 0;
                while i < records.len()
                    invariant
                        rs == records@,
                        i <= rs.len(),
                        self.nodes@ == apply_records(old(self).nodes@, rs.take(i as int)),
                        self.edges == old(self).edges,
                        self.metadata == old(self).metadata,
                    decreases rs.len() - i,
                {
                    apply_record_to(&mut self.nodes, records[i]);
                    assert(rs.take(i + 1).drop_last() =~= rs.take(i as int));
                    i += 1;
                }
                assert(rs.take(rs.len() as int) =~= rs);
                Ok(())
            },
        }
    }
}

/// The last record of `rs` that reaches a node with string id `id`.
pub open spec fn last_match(id: Seq<char>, rs: Seq<WireRecord>) -> Option<WireRecord>
    decreases rs.len(),
{
    if rs.len() == 0 {
        None
    } else if id == decimal(rs.last().id as nat) {
        Some(rs.last())
    } else {
        last_match(id, rs.drop_last())
    }
}

proof fn lemma_apply_records_pointwise(nodes: Seq<Node>, rs: Seq<WireRecord>)
    ensures
        apply_records(nodes, rs).len() == nodes.len(),
        forall|i: int|
            0 <= i < nodes.len() ==> #[trigger] apply_records(nodes, rs)[i] == match last_match(
                nodes[i].id@,
                rs,
            ) {
                Some(r) => moved_node(nodes[i], r),
                None => nodes[i],
            },
    decreases rs.len(),
{
    if rs.len() > 0 {
        lemma_apply_records_pointwise(nodes, rs.drop_last());
    }
}

/// Client frames never change a node's id, mass or flags: after any number
/// of them each node keeps the values it had when the graph was built.
pub proof fn lemma_inbound_keeps_server_fields(nodes: Seq<Node>, frames: Seq<Seq<u8>>)
    ensures
        apply_frames(nodes, frames).len() == nodes.len(),
        forall|i: int|
            0 <= i < nodes.len() ==> {
                &&& (#[trigger] apply_frames(nodes, frames)[i]).id == nodes[i].id
                &&& apply_frames(nodes, frames)[i].data.mass == nodes[i].data.mass
                &&& apply_frames(nodes, frames)[i].data.flags == nodes[i].data.flags
            },
    decreases frames.len(),
{
    if frames.len() > 0 {
        let before = apply_frames(nodes, frames.drop_last());
        lemma_inbound_keeps_server_fields(nodes, frames.drop_last());
        match inbound_decode(frames.last()) {
            Ok(rs) => {
                lemma_apply_records_pointwise(before, rs);
                assert forall|i: int| 0 <= i < nodes.len() implies {
                    &&& (#[trigger] apply_frames(nodes, frames)[i]).id == nodes[i].id
                    &&& apply_frames(nodes, frames)[i].data.mass == nodes[i].data.mass
                    &&& apply_frames(nodes, frames)[i].data.flags == nodes[i].data.flags
                } by {
                    assert(apply_frames(nodes, frames)[i] == apply_records(before, rs)[i]);
                }
            },
            Err(_) => {},
        }
    }
}

/// Applying the same client frame twice has the effect of applying it once.
pub proof fn lemma_inbound_idempotent(nodes: Seq<Node>, frame: Seq<u8>)
    ensures
        apply_frame(apply_frame(nodes, frame), frame) == apply_frame(nodes, frame),
{
    match inbound_decode(frame) {
        Ok(rs) => {
            let once = apply_records(nodes, rs);
            lemma_apply_records_pointwise(nodes, rs);
            lemma_apply_records_pointwise(once, rs);
            assert forall|i: int| 0 <= i < once.len() implies #[trigger] apply_records(once, rs)[i]
                == once[i] by {
                assert(once[i] == apply_records(nodes, rs)[i]);
            }
            assert(apply_records(once, rs) =~= once);
        },
        Err(_) => {},
    }
}

/// The nodes after those with string id `decimal(id)` take position and
/// velocity from `d`; their mass and flags stay.
pub open spec fn replace_record(nodes: Seq<Node>, id: u32, d: BinaryNodeData) -> Seq<Node> {
    nodes.map_values(
        |n: Node|
            if n.id@ == decimal(id as nat) {
                Node {
                    data: BinaryNodeData { position: d.position, velocity: d.velocity, ..n.data },
                    ..n
                }
            } else {
                n
            },
    )
}

pub open spec fn replace_records(nodes: Seq<Node>, updates: Seq<(u32, Node)>) -> Seq<Node>
    decreases updates.len(),
{
    if updates.len() == 0 {
        nodes
    } else {
        let u = updates.last();
        replace_record(replace_records(nodes, updates.drop_last()), u.0, u.1.data)
    }
}

impl GraphData {
    /// Writes positions and velocities back into the nodes, as the physics
    /// driver does after a step: each update sets them on the nodes whose
    /// string id is its numeric id in decimal; later updates win. Mass and
    /// flags are the server's own and stay.
    pub fn update_node_positions(&mut self, updates: Vec<(u32, Node)>)
        ensures
            final(self).nodes@ == replace_records(old(self).nodes@, updates@),
            final(self).nodes@.len() == old(self).nodes@.len(),
            forall|i: int|
                0 <= i < old(self).nodes@.len() ==> {
                    &&& (#[trigger] final(self).nodes@[i]).id == old(self).nodes@[i].id
                    &&& final(self).nodes@[i].data.mass == old(self).nodes@[i].data.mass
                    &&& final(self).nodes@[i].data.flags == old(self).nodes@[i].data.flags
                },
            final(self).edges == old(self).edges,
            final(self).metadata == old(self).metadata,
    {
        let mut k: usize = 0;
        while k < updates.len()
            invariant
                k <= updates@.len(),
                self.nodes@ == replace_records(old(self).nodes@, updates@.take(k as int)),
                self.nodes@.len() == old(self).nodes@.len(),
                forall|i: int|
                    0 <= i < old(self).nodes@.len() ==> {
                        &&& (#[trigger] self.nodes@[i]).id == old(self).nodes@[i].id
                        &&& self.nodes@[i].data.mass == old(self).nodes@[i].data.mass
                        &&& self.nodes@[i].data.flags == old(self).nodes@[i].data.flags
                    },
                self.edges == old(self).edges,
                self.metadata == old(self).metadata,
            decreases updates@.len() - k,
        {
            let id = updates[k].0;
            let d = updates[k].1.data;
            let ghost before = self.nodes@;
            let mut digits: Vec<char> = Vec::new();
            push_decimal(&mut digits, id as u64);
            assert(digits@ =~= decimal(id as nat));
            let mut i: usize = 0;
            while i < self.nodes.len()
                invariant
                    self.nodes@.len() == before.len(),
                    digits@ == decimal(id as nat),
                    i <= self.nodes@.len(),
                    forall|j: int| 0 <= j < i ==> self.nodes@[j] == #[trigger] replace_record(before, id, d)[j],
                    forall|j: int| i <= j < self.nodes@.len() ==> self.nodes@[j] == before[j],
                    before.len() == old(self).nodes@.len(),
                    forall|j: int|
                        0 <= j < before.len() ==> {
                            &&& (#[trigger] before[j]).id == old(self).nodes@[j].id
                            &&& before[j].data.mass == old(self).nodes@[j].data.mass
                            &&& before[j].data.flags == old(self).nodes@[j].data.flags
                        },
                    self.edges == old(self).edges,
                    self.metadata == old(self).metadata,
                decreases self.nodes@.len() - i,
            {
                let node_id = chars_of_string(&self.nodes[i].id);
                if chars_eq(&node_id, &digits) {
                    self.nodes[i].apply_motion(d.position, d.velocity);
                }
                assert(self.nodes@[i as int] == replace_record(before, id, d)[i as int]);
                i += 1;
            }
            assert(self.nodes@ =~= replace_record(before, id, d));
            assert(updates@.take(k + 1).drop_last() =~= updates@.take(k as int));
            k += 1;
        }
        assert(updates@.take(updates@.len() as int) =~= updates@);
    }
}

/// The index of the first node with string id `id`.
pub open spec fn id_index(nodes: Seq<Node>, id: Seq<char>) -> Option<int>
    decreases nodes.len(),
{
    if nodes.len() == 0 {
        None
    } else {
        match id_index(nodes.drop_last(), id) {
            Some(k) => Some(k),
            None => if nodes.last().id@ == id {
                Some(nodes.len() - 1)
            } else {
                None
            },
        }
    }
}

proof fn lemma_id_index(nodes: Seq<Node>, id: Seq<char>)
    ensures
        match id_index(nodes, id) {
            Some(k) => 0 <= k < nodes.len() && nodes[k].id@ == id && forall|j: int|
                0 <= j < k ==> (#[trigger] nodes[j]).id@ != id,
            None => forall|j: int| 0 <= j < nodes.len() ==> (#[trigger] nodes[j]).id@ != id,
        },
    decreases nodes.len(),
{
    if nodes.len() > 0 {
        let init = nodes.drop_last();
        lemma_id_index(init, id);
        match id_index(init, id) {
            Some(k) => {
                assert(init[k] == nodes[k]);
                assert forall|j: int| 0 <= j < k implies (#[trigger] nodes[j]).id@ != id by {
                    assert(init[j] == nodes[j]);
                }
            },
            None => {
                assert forall|j: int| 0 <= j < init.len() implies (#[trigger] nodes[j]).id@ != id by {
                    assert(init[j] == nodes[j]);
                }
            },
        }
    }
}

/// Node `n` of a rebuilt graph after taking over the motion of its
/// namesake in the previous graph, if there is one.
pub open spec fn carried_over(n: Node, previous: Seq<Node>) -> Node {
    match id_index(previous, n.id@) {
        Some(k) => Node {
            data: BinaryNodeData {
                position: previous[k].data.position,
                velocity: previous[k].data.velocity,
                ..n.data
            },
            ..n
        },
        None => n,
    }
}

impl GraphData {
    /// After a rebuild, keeps the position and velocity of every node that
    /// was in the previous graph (the first node there with its id). Returns,
    /// per node, whether it is new and so still needs an initial position.
    pub fn carry_over_motion(&mut self, previous: &GraphData) -> (fresh: Vec<bool>)
        ensures
            final(self).nodes@.len() == old(self).nodes@.len(),
            fresh@.len() == old(self).nodes@.len(),
            forall|i: int|
                0 <= i < old(self).nodes@.len() ==> {
                    &&& #[trigger] final(self).nodes@[i] == carried_over(
                        old(self).nodes@[i],
                        previous.nodes@,
                    )
                    &&& fresh@[i] == id_index(previous.nodes@, old(self).nodes@[i].id@) is None
                },
            final(self).edges == old(self).edges,
            final(self).metadata == old(self).metadata,
    {
        let ghost before = self.nodes@;
        let mut fresh: Vec<bool> = Vec::new();
        let mut i: usize = 0;
        while i < self.nodes.len()
            invariant
                self.nodes@.len() == before.len(),
                fresh@.len() == i,
                i <= before.len(),
                forall|j: int|
                    0 <= j < i ==> {
                        &&& #[trigger] self.nodes@[j] == carried_over(before[j], previous.nodes@)
                        &&& fresh@[j] == id_index(previous.nodes@, before[j].id@) is None
                    },
                forall|j: int| i <= j < self.nodes@.len() ==> self.nodes@[j] == before[j],
                self.edges == old(self).edges,
                self.metadata == old(self).metadata,
            decreases before.len() - i,
        {
            let id = chars_of_string(&self.nodes[i].id);
            proof {
                lemma_id_index(previous.nodes@, id@);
            }
            let mut k: usize = 0;
            let mut found = false;
            while !found && k < previous.nodes.len()
                invariant
                    k <= previous.nodes@.len(),
                    forall|j: int| 0 <= j < k ==> (#[trigger] previous.nodes@[j]).id@ != id@,
                    found ==> k < previous.nodes@.len() && previous.nodes@[k as int].id@ == id@,
                decreases previous.nodes@.len() - k + if found { 0int } else { 1int },
            {
                let other = chars_of_string(&previous.nodes[k].id);
                if chars_eq(&other, &id) {
                    found = true;
                } else {
                    k += 1;
                }
            }
            if found {
                let p = previous.nodes[k].data.position;
                let v = previous.nodes[k].data.velocity;
                assert(id_index(previous.nodes@, id@) == Some(k as int)) by {
                    match id_index(previous.nodes@, id@) {
                        Some(m) => {
                            if m < k {
                                assert(previous.nodes@[m].id@ != id@);
                            } else if m > k {
                                assert(previous.nodes@[k as int].id@ != id@);
                            }
                        },
                        None => {
                            assert(previous.nodes@[k as int].id@ != id@);
                        },
                    }
                }
                self.nodes[i].apply_motion(p, v);
                fresh.push(false);
            } else {
                assert(id_index(previous.nodes@, id@) is None) by {
                    match id_index(previous.nodes@, id@) {
                        Some(m) => {
                            assert(previous.nodes@[m].id@ != id@);
                        },
                        None => {},
                    }
                }
                fresh.push(true);
            }
            i += 1;
        }
        fresh
    }
}

} // verus!
