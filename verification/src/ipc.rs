//! The per-message metadata: front-consumable queues of field nodes and
//! buffer descriptors, the stream-level compression flag, and the format
//! version that gates the legacy offsets fallback.
//!
//! Popping from the front is the only access the queues offer; consumption
//! order is the sole synchronization between the decoder and the byte
//! layout, so no peeking or random access exists.

use vstd::prelude::*;

use crate::error::DecodeError;

verus! {

/// Per-array metadata: declared element count and null count. One node is
/// consumed per array, in schema preorder.
#[derive(Clone, Copy, Debug, PartialEq, Eq, Structural)]
pub struct FieldNode {
    pub length: i64,
    pub null_count: i64,
}

/// One physical buffer's position in the message body, relative to the
/// block offset.
#[derive(Clone, Copy, Debug, PartialEq, Eq, Structural)]
pub struct BufferDesc {
    pub offset: i64,
    pub length: i64,
}

/// The stream-level compression codec, when one is declared.
#[derive(Clone, Copy, Debug, PartialEq, Eq, Structural)]
pub enum Compression {
    Lz4,
}

/// The format version. Everything before `V5` is legacy and enables the
/// offsets fallback for variable-length and list arrays.
#[derive(Clone, Copy, Debug, PartialEq, Eq, Structural)]
pub enum Version {
    V4,
    V5,
}

/// The queue of field nodes of one message.
pub struct NodeQueue {
    nodes: Vec<FieldNode>,
    cursor: usize,
}

impl View for NodeQueue {
    type V = Seq<FieldNode>;

    closed spec fn view(&self) -> Seq<FieldNode> {
        if self.cursor <= self.nodes@.len() {
            self.nodes@.skip(self.cursor as int)
        } else {
            Seq::empty()
        }
    }
}

impl NodeQueue {
    pub fn new(nodes: Vec<FieldNode>) -> (q: NodeQueue)
        ensures
            q@ == nodes@,
    {
        let q = NodeQueue { nodes, cursor: 0 };
        proof {
            assert(q@ =~= q.nodes@);
        }
        q
    }

    pub fn len(&self) -> (n: usize)
        ensures
            n == self@.len(),
    {
        if self.cursor <= self.nodes.len() {
            self.nodes.len() - self.cursor
        } else {
            0
        }
    }

    /// Pops the front node; an empty queue is corruption.
    pub fn pop_field_node(&mut self) -> (r: Result<FieldNode, DecodeError>)
        ensures
            match r {
                Ok(nd) => {
                    &&& old(self)@.len() > 0
                    &&& nd == old(self)@[0]
                    &&& final(self)@ == old(self)@.drop_first()
                },
                Err(e) => {
                    &&& e == DecodeError::Corruption
                    &&& old(self)@.len() == 0
                    &&& final(self)@ == old(self)@
                },
            },
    {
        if self.cursor < self.nodes.len() {
            let nd = self.nodes[self.cursor];
            self.cursor = self.cursor + 1;
            proof {
                assert(self@ =~= old(self)@.drop_first());
            }
            Ok(nd)
        } else {
            Err(DecodeError::Corruption)
        }
    }
}

/// The queue of buffer descriptors of one message.
pub struct BufferQueue {
    buffers: Vec<BufferDesc>,
    cursor: usize,
}

impl View for BufferQueue {
    type V = Seq<BufferDesc>;

    closed spec fn view(&self) -> Seq<BufferDesc> {
        if self.cursor <= self.buffers@.len() {
            self.buffers@.skip(self.cursor as int)
        } else {
            Seq::empty()
        }
    }
}

impl BufferQueue {
    pub fn new(buffers: Vec<BufferDesc>) -> (q: BufferQueue)
        ensures
            q@ == buffers@,
    {
        let q = BufferQueue { buffers, cursor: 0 };
        proof {
            assert(q@ =~= q.buffers@);
        }
        q
    }

    pub fn len(&self) -> (n: usize)
        ensures
            n == self@.len(),
    {
        if self.cursor <= self.buffers.len() {
            self.buffers.len() - self.cursor
        } else {
            0
        }
    }

    /// Pops the front descriptor; an empty queue is corruption.
    pub fn pop_buffer(&mut self) -> (r: Result<BufferDesc, DecodeError>)
        ensures
            match r {
                Ok(d) => {
                    &&& old(self)@.len() > 0
                    &&& d == old(self)@[0]
                    &&& final(self)@ == old(self)@.drop_first()
                },
                Err(e) => {
                    &&& e == DecodeError::Corruption
                    &&& old(self)@.len() == 0
                    &&& final(self)@ == old(self)@
                },
            },
    {
        if self.cursor < self.buffers.len() {
            let d = self.buffers[self.cursor];
            self.cursor = self.cursor + 1;
            proof {
                assert(self@ =~= old(self)@.drop_first());
            }
            Ok(d)
        } else {
            Err(DecodeError::Corruption)
        }
    }
}

} // verus!
