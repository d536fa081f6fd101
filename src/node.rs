//! Graph nodes and their fixed 26-byte physics record.
use vstd::prelude::*;
use crate::text::{chars_eq, chars_of_string};
use crate::wire::Vec3Bits;

verus! {

/// Flag bit set on a node that takes part in the simulation.
pub const FLAG_ACTIVE: u8 = 1;

/// The physics record of a node. Mass and flags live on the server only: the
/// wire carries position and velocity alone.
#[derive(Clone, Copy, Debug, PartialEq, Eq, Structural)]
pub struct BinaryNodeData {
    pub position: Vec3Bits,
    pub velocity: Vec3Bits,
    pub mass: u8,
    pub flags: u8,
}

/// A node of the document graph: one per source document.
#[derive(Clone, Debug)]
pub struct Node {
    /// Stable id: the document name without its `.md` extension.
    pub id: String,
    pub label: String,
    pub data: BinaryNodeData,
    /// Size in bytes of the backing document.
    pub file_size: u64,
    /// Document-derived key/value strings.
    pub metadata: Vec<(String, String)>,
    pub node_type: Option<String>,
    /// Rendering size and weight, as f32 bit patterns.
    pub size: Option<u32>,
    pub color: Option<String>,
    pub weight: Option<u32>,
    pub group: Option<String>,
    /// Key/value strings attached by clients.
    pub user_data: Option<Vec<(String, String)>>,
}

pub open spec fn fresh_data() -> BinaryNodeData {
    BinaryNodeData {
        position: Vec3Bits { x: 0, y: 0, z: 0 },
        velocity: Vec3Bits { x: 0, y: 0, z: 0 },
        mass: 0,
        flags: FLAG_ACTIVE,
    }
}

/// `md` without the pairs whose key is `key`, in order.
pub open spec fn without_key(md: Seq<(String, String)>, key: Seq<char>) -> Seq<(String, String)>
    decreases md.len(),
{
    if md.len() == 0 {
        md
    } else {
        let p = without_key(md.drop_last(), key);
        if md.last().0@ == key {
            p
        } else {
            p.push(md.last())
        }
    }
}

impl Node {
    /// A node at the origin, at rest, active, with its id as label.
    pub fn new(id: String) -> (r: Node)
        ensures
            r.id@ == id@,
            r.label@ == id@,
            r.data == fresh_data(),
            r.file_size == 0,
            r.metadata@.len() == 0,
            r.node_type is None,
            r.size is None,
            r.color is None,
            r.weight is None,
            r.group is None,
            r.user_data is None,
    {
        let label = id.clone();
        Node {
            id,
            label,
            data: BinaryNodeData {
                position: Vec3Bits::zero(),
                velocity: Vec3Bits::zero(),
                mass: 0,
                flags: FLAG_ACTIVE,
            },
            file_size: 0,
            metadata: Vec::new(),
            node_type: None,
            size: None,
            color: None,
            weight: None,
            group: None,
            user_data: None,
        }
    }

    /// Replaces the whole physics record.
    pub fn update_from_binary_data(&mut self, binary_data: &BinaryNodeData)
        ensures
            *final(self) == (Node { data: *binary_data, ..*old(self) }),
    {
        self.data = *binary_data;
    }

    /// Overwrites position and velocity, keeping mass and flags.
    pub fn apply_motion(&mut self, position: Vec3Bits, velocity: Vec3Bits)
        ensures
            *final(self) == (Node {
                data: BinaryNodeData { position, velocity, ..old(self).data },
                ..*old(self)
            }),
    {
        let mass = self.data.mass;
        let flags = self.data.flags;
        self.data.position = position;
        self.data.velocity = velocity;
        self.data.mass = mass;
        self.data.flags = flags;
    }

    /// Records the document size, with the mass derived from it.
    pub fn set_file_size(&mut self, size: u64, mass: u8)
        ensures
            *final(self) == (Node {
                file_size: size,
                data: BinaryNodeData { mass, ..old(self).data },
                ..*old(self)
            }),
    {
        self.file_size = size;
        self.data.mass = mass;
    }

    pub fn with_position(self, x: u32, y: u32, z: u32) -> (r: Node)
        ensures
            r == (Node {
                data: BinaryNodeData { position: Vec3Bits { x, y, z }, ..self.data },
                ..self
            }),
    {
        let mut n = self;
        n.data.position = Vec3Bits { x, y, z };
        n
    }

    pub fn with_velocity(self, vx: u32, vy: u32, vz: u32) -> (r: Node)
        ensures
            r == (Node {
                data: BinaryNodeData { velocity: Vec3Bits { x: vx, y: vy, z: vz }, ..self.data },
                ..self
            }),
    {
        let mut n = self;
        n.data.velocity = Vec3Bits { x: vx, y: vy, z: vz };
        n
    }

    pub fn with_label(self, label: String) -> (r: Node)
        ensures
            r == (Node { label, ..self }),
    {
        let mut n = self;
        n.label = label;
        n
    }

    /// Sets the metadata value of `key`: an earlier pair with that key is
    /// dropped and the new pair goes at the end.
    pub fn with_metadata(self, key: String, value: String) -> (r: Node)
        ensures
            r == (Node { metadata: r.metadata, ..self }),
            r.metadata@ == without_key(self.metadata@, key@).push((key, value)),
    {
        let mut n = self;
        let ghost orig = n.metadata@;
        let k = chars_of_string(&key);
        let total = n.metadata.len();
        let mut rest = n.metadata;
        n.metadata = Vec::new();
        let mut i: usize = 0;
        while rest.len() > 0
            invariant
                i + rest@.len() == orig.len(),
                orig.len() == total,
                rest@ == orig.subrange(i as int, orig.len() as int),
                n.metadata@ == without_key(orig.take(i as int), k@),
                n == (Node { metadata: n.metadata, ..self }),
            decreases rest@.len(),
        {
            let e = rest.remove(0);
            proof {
                assert(orig.take(i + 1).drop_last() =~= orig.take(i as int));
                assert(orig[i as int] == e);
            }
            if !chars_eq(&chars_of_string(&e.0), &k) {
                n.metadata.push(e);
            }
            i += 1;
            assert(rest@ =~= orig.subrange(i as int, orig.len() as int));
        }
        assert(orig.take(i as int) =~= orig);
        n.metadata.push((key, value));
        n
    }

    pub fn with_type(self, node_type: String) -> (r: Node)
        ensures
            r == (Node { node_type: Some(node_type), ..self }),
    {
        let mut n = self;
        n.node_type = Some(node_type);
        n
    }

    pub fn with_size(self, size: u32) -> (r: Node)
        ensures
            r == (Node { size: Some(size), ..self }),
    {
        let mut n = self;
        n.size = Some(size);
        n
    }

    pub fn with_color(self, color: String) -> (r: Node)
        ensures
            r == (Node { color: Some(color), ..self }),
    {
        let mut n = self;
        n.color = Some(color);
        n
    }

    pub fn with_weight(self, weight: u32) -> (r: Node)
        ensures
            r == (Node { weight: Some(weight), ..self }),
    {
        let mut n = self;
        n.weight = Some(weight);
        n
    }

    pub fn with_group(self, group: String) -> (r: Node)
        ensures
            r == (Node { group: Some(group), ..self }),
    {
        let mut n = self;
        n.group = Some(group);
        n
    }

    pub fn x(&self) -> (r: u32)
        ensures
            r == self.data.position.x,
    {
        self.data.position.x
    }

    pub fn y(&self) -> (r: u32)
        ensures
            r == self.data.position.y,
    {
        self.data.position.y
    }

    pub fn z(&self) -> (r: u32)
        ensures
            r == self.data.position.z,
    {
        self.data.position.z
    }

    pub fn vx(&self) -> (r: u32)
        ensures
            r == self.data.velocity.x,
    {
        self.data.velocity.x
    }

    pub fn vy(&self) -> (r: u32)
        ensures
            r == self.data.velocity.y,
    {
        self.data.velocity.y
    }

    pub fn vz(&self) -> (r: u32)
        ensures
            r == self.data.velocity.z,
    {
        self.data.velocity.z
    }

    pub fn set_x(&mut self, val: u32)
        ensures
            *final(self) == (Node {
                data: BinaryNodeData {
                    position: Vec3Bits { x: val, ..old(self).data.position },
                    ..old(self).data
                },
                ..*old(self)
            }),
    {
        self.data.position.x = val;
    }

    pub fn set_y(&mut self, val: u32)
        ensures
            *final(self) == (Node {
                data: BinaryNodeData {
                    position: Vec3Bits { y: val, ..old(self).data.position },
                    ..old(self).data
                },
                ..*old(self)
            }),
    {
        self.data.position.y = val;
    }

    pub fn set_z(&mut self, val: u32)
        ensures
            *final(self) == (Node {
                data: BinaryNodeData {
                    position: Vec3Bits { z: val, ..old(self).data.position },
                    ..old(self).data
                },
                ..*old(self)
            }),
    {
        self.data.position.z = val;
    }

    pub fn set_vx(&mut self, val: u32)
        ensures
            *final(self) == (Node {
                data: BinaryNodeData {
                    velocity: Vec3Bits { x: val, ..old(self).data.velocity },
                    ..old(self).data
                },
                ..*old(self)
            }),
    {
        self.data.velocity.x = val;
    }

    pub fn set_vy(&mut self, val: u32)
        ensures
            *final(self) == (Node {
                data: BinaryNodeData {
                    velocity: Vec3Bits { y: val, ..old(self).data.velocity },
                    ..old(self).data
                },
                ..*old(self)
            }),
    {
        self.data.velocity.y = val;
    }

    pub fn set_vz(&mut self, val: u32)
        ensures
            *final(self) == (Node {
                data: BinaryNodeData {
                    velocity: Vec3Bits { z: val, ..old(self).data.velocity },
                    ..old(self).data
                },
                ..*old(self)
            }),
    {
        self.data.velocity.z = val;
    }
}

} // verus!
