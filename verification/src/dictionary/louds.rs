//! Navigation over the node, label and LOUDS tables.

use super::image;
use super::image_format;
use super::raw;
use super::{Dictionary, Entry, EntryFlags, Error, ImageVersion};
use crate::strings;
use vstd::prelude::*;

verus! {

/// A node record.
#[derive(Clone, Copy)]
pub(super) struct Node {
    pub(super) first_child: usize,
    pub(super) child_count: usize,
    pub(super) value_start: usize,
    pub(super) value_count: usize,
}

impl Node {
    /// Whether this is the record of node `i`.
    pub(super) open spec fn is(self, v: image::ImageView, i: int) -> bool {
        &&& self.first_child == v.first_child(i)
        &&& self.child_count == v.child_count(i)
        &&& self.value_start == v.value_start(i)
        &&& self.value_count == v.value_count(i)
    }
}

impl<'a> Dictionary<'a> {
    pub(super) fn node(&self, index: usize) -> (r: Result<Node, Error>)
        requires
            self@.shaped(),
        ensures
            r is Ok <==> index < self@.node_count && (!self@.v2 ==> raw::le32(
                self@.nodes,
                image_format::NODE_LEN * index + 12,
            ) == 0),
            r matches Ok(node) ==> node.is(self@, index as int),
            r matches Err(e) ==> e == Error::BadTree,
    {
        if index >= self.node_count {
            return Err(Error::BadTree);
        }
        assert(self.nodes.len() == self.nodes@.len());
        let at: usize = index * self.version.node_len();
        if self.version == ImageVersion::V1 {
            match raw::read_u32(self.nodes, at + 12) {
                Some(0) => {},
                _ => {
                    return Err(Error::BadTree);
                },
            }
        }
        match (
            raw::read_u32(self.nodes, at),
            raw::read_u16(self.nodes, at + 4),
            raw::read_u16(self.nodes, at + 6),
            raw::read_u32(self.nodes, at + 8),
        ) {
            (Some(first_child), Some(child_count), Some(value_count), Some(value_start)) => Ok(
                Node {
                    first_child: first_child as usize,
                    child_count: child_count as usize,
                    value_start: value_start as usize,
                    value_count: value_count as usize,
                },
            ),
            _ => Err(Error::BadTree),
        }
    }

    pub(super) fn label(&self, index: usize) -> (r: Result<char, Error>)
        requires
            self@.shaped(),
        ensures
            r is Ok <==> index < self@.node_count && strings::is_scalar_value(
                self@.label_value(index as int),
            ),
            r matches Ok(c) ==> c as u32 == self@.label_value(index as int),
            r matches Err(e) ==> e == Error::BadTree,
    {
        if index >= self.node_count {
            return Err(Error::BadTree);
        }
        assert(self.nodes.len() == self.nodes@.len());
        assert(self.labels.len() == self.labels@.len());
        let scalar = match self.version {
            ImageVersion::V1 => raw::read_u32(self.labels, index * 4),
            ImageVersion::V2 => raw::read_u32(self.nodes, index * image_format::NODE_LEN_V2 + 12),
        };
        match scalar {
            Some(value) => match strings::char_from_u32(value) {
                Some(c) => Ok(c),
                None => Err(Error::BadTree),
            },
            None => Err(Error::BadTree),
        }
    }

    pub(super) fn louds_bit(&self, index: usize) -> (r: Result<bool, Error>)
        requires
            self@.shaped(),
        ensures
            r is Ok <==> index < self@.louds_bits,
            r matches Ok(b) ==> b == raw::bit(self@.louds, index as int),
            r matches Err(e) ==> e == Error::BadTree,
    {
        if index >= self.louds_bits {
            return Err(Error::BadTree);
        }
        match raw::bit_at(self.louds, index) {
            Some(b) => Ok(b),
            None => Err(Error::BadTree),
        }
    }

    pub(super) fn entry(&self, index: usize) -> (r: Result<Entry, Error>)
        requires
            self@.shaped(),
        ensures
            r is Ok <==> index < self@.entry_count && (self@.v2 ==> raw::le16(
                self@.entries,
                self@.entry_at(index as int) + 14,
            ) == 0),
            r matches Ok(entry) ==> entry == self@.entry(index as int),
            r matches Err(e) ==> e == Error::BadEntry,
    {
        if index >= self.entry_count {
            return Err(Error::BadEntry);
        }
        assert(self.entries.len() == self.entries@.len());
        let at: usize = match self.version {
            ImageVersion::V1 => index * image_format::ENTRY_LEN,
            ImageVersion::V2 => index * image_format::ENTRY_LEN_V2,
        };
        let (Some(surface_id), Some(left_id), Some(right_id)) = (
            raw::read_u32(self.entries, at),
            raw::read_u16(self.entries, at + 4),
            raw::read_u16(self.entries, at + 6),
        ) else {
            return Err(Error::BadEntry);
        };
        match self.version {
            ImageVersion::V1 => {
                match (
                    raw::read_i32(self.entries, at + 8),
                    raw::read_i32(self.entries, at + 12),
                    raw::read_u16(self.entries, at + 16),
                    raw::read_u32(self.entries, at + 20),
                ) {
                    (
                        Some(word_cost),
                        Some(prediction_cost),
                        Some(flags),
                        Some(annotation_locator),
                    ) => Ok(
                        Entry {
                            surface_id,
                            left_id,
                            right_id,
                            word_cost,
                            prediction_cost,
                            flags: EntryFlags::from_bits(flags),
                            annotation_locator,
                        },
                    ),
                    _ => Err(Error::BadEntry),
                }
            },
            ImageVersion::V2 => {
                match (
                    raw::read_u16(self.entries, at + 8),
                    raw::read_u16(self.entries, at + 10),
                    raw::read_u16(self.entries, at + 12),
                    raw::read_u16(self.entries, at + 14),
                ) {
                    (Some(word_cost), Some(prediction), Some(flags), Some(0)) => Ok(
                        Entry {
                            surface_id,
                            left_id,
                            right_id,
                            word_cost: word_cost as i32,
                            prediction_cost: if prediction == 0xffff {
                                i32::MAX
                            } else {
                                prediction as i32
                            },
                            flags: EntryFlags::from_bits(flags),
                            annotation_locator: index as u32,
                        },
                    ),
                    _ => Err(Error::BadEntry),
                }
            },
        }
    }
}

impl<'a> Dictionary<'a> {
    /// The record of a node of a valid image.
    pub(super) fn valid_node(&self, index: usize) -> (node: Node)
        requires
            self@.valid(),
            index < self@.node_count,
        ensures
            node.is(self@, index as int),
            self@.node_ok(index as int),
            self@.node_count <= 0xffff_ffff,
            self@.entry_count <= 0xffff_ffff,
            self@.entry_count <= usize::MAX,
            self@.node_count <= usize::MAX,
    {
        proof {
            reveal(image::ImageView::valid);
            assert(self@.node_ok(index as int));
        }
        match self.node(index) {
            Ok(node) => node,
            Err(_) => Node { first_child: 0, child_count: 0, value_start: 0, value_count: 0 },
        }
    }

    /// The label of a node of a valid image.
    pub(super) fn valid_label(&self, index: usize) -> (c: char)
        requires
            self@.valid(),
            index < self@.node_count,
        ensures
            c as u32 == self@.label_value(index as int),
            c == (self@.label_value(index as int) as u32) as char,
    {
        proof {
            reveal(image::ImageView::valid);
            assert(self@.node_ok(index as int));
        }
        match self.label(index) {
            Ok(c) => {
                proof {
                    vstd::utf8::char_u32_cast(c, self@.label_value(index as int) as u32);
                }
                c
            },
            Err(_) => '\0',
        }
    }

    /// An entry of a valid image.
    pub(super) fn valid_entry(&self, index: usize) -> (entry: Entry)
        requires
            self@.valid(),
            index < self@.entry_count,
        ensures
            entry == self@.entry(index as int),
    {
        proof {
            reveal(image::ImageView::valid);
            assert(self@.entry_ok(index as int));
        }
        match self.entry(index) {
            Ok(entry) => entry,
            Err(_) => Entry::default(),
        }
    }
}

} // verus!
