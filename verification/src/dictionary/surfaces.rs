//! Front-coded surface text.

use super::image;
use super::image_format;
use super::raw;
use super::{Dictionary, Error};
use crate::strings;
use crate::values::{FixedStr, MAX_PREEDIT_BYTES};
use vstd::prelude::*;
#[allow(unused_imports)]
use vstd::utf8::*;

verus! {

/// Applies one front-coded record to the text before it.
pub(super) fn apply_record(
    value: &mut FixedStr<MAX_PREEDIT_BYTES>,
    record: &[u8],
    head: bool,
) -> (r: Result<(), Error>)
    requires
        old(value).wf(),
    ensures
        final(value).wf(),
        match image::coded_value(encode_utf8(old(value)@), record@, head) {
            Ok(next) => r is Ok && encode_utf8(final(value)@) == next,
            Err(e) => r == Err::<(), Error>(e),
        },
{
    let bad = Error::BadTable(image_format::TAG_SURFACES);
    if record.len() < 4 {
        return Err(bad);
    }
    let (Some(prefix), Some(suffix_len)) = (raw::read_u16(record, 0), raw::read_u16(record, 2)) else {
        return Err(bad);
    };
    let prefix: usize = prefix as usize;
    if record.len() != 4 + suffix_len as usize || prefix > value.len()
        || !value.as_str().is_char_boundary(prefix) || (head && prefix != 0) {
        return Err(bad);
    }
    let suffix_bytes: &[u8] = vstd::slice::slice_subrange(record, 4, record.len());
    assert(suffix_bytes@ =~= record@.skip(4));
    let Some(suffix) = strings::text_from_utf8(suffix_bytes) else {
        return Err(Error::BadUtf8);
    };
    let (kept, _) = value.as_str().split_at(prefix);
    let mut next: FixedStr<MAX_PREEDIT_BYTES> = FixedStr::new();
    proof {
        decode_utf8_encode_utf8(suffix_bytes@);
        assert(encode_utf8(value@).subrange(0, prefix as int) =~= encode_utf8(value@).take(
            prefix as int,
        ));
        assert(Seq::<char>::empty() + kept@ =~= kept@);
        strings::lemma_encode_concat(kept@, suffix@);
    }
    if next.push_str(kept).is_err() {
        return Err(Error::TextOverflow);
    }
    if next.push_str(suffix).is_err() {
        return Err(Error::TextOverflow);
    }
    *value = next;
    Ok(())
}

/// The record at `cursor` in the surfaces of the second version.
pub(super) fn packed_record<'b>(surfaces: &'b [u8], cursor: usize) -> (r: Option<&'b [u8]>)
    ensures
        match image::packed_record(surfaces@, cursor as int) {
            Some(record) => r matches Some(bytes) && bytes@ == record,
            None => r is None,
        },
{
    let n: usize = surfaces.len();
    if n < 4 || cursor > n - 4 {
        return None;
    }
    let Some(suffix_len) = raw::read_u16(surfaces, cursor + 2) else {
        return None;
    };
    if suffix_len as usize > n - 4 - cursor {
        return None;
    }
    Some(vstd::slice::slice_subrange(surfaces, cursor, cursor + 4 + suffix_len as usize))
}

impl<'a> Dictionary<'a> {
    /// The first fault of the surfaces of the second version.
    pub(super) fn validate_v2_surfaces(&self) -> (r: Result<(), Error>)
        requires
            self@.shaped(),
            self@.v2,
        ensures
            match self@.surfaces_error() {
                None => r is Ok,
                Some(e) => r == Err::<(), Error>(e),
            },
    {
        let interval: usize = image_format::SURFACE_RESTART_INTERVAL;
        let restart_count: usize = self.surface_count / interval + (if self.surface_count % interval
            > 0 {
            1
        } else {
            0
        });
        assert(restart_count == image::restarts(self@.surface_count));
        if restart_count == 0 {
            if self.surface_offsets.len() != 0 || self.surfaces.len() != 0 {
                return Err(Error::BadTable(image_format::TAG_SURFACES));
            }
            return Ok(());
        }
        let mut restart: usize = 0;
        while restart < restart_count
            invariant
                self@.shaped(),
                self@.v2,
                self@.surface_count > 0,
                restart_count == image::restarts(self@.surface_count),
                restart <= restart_count,
                interval == image_format::SURFACE_RESTART_INTERVAL,
                self@.surfaces_error() == self@.blocks_error(restart as int),
            decreases restart_count - restart,
        {
            match self.validate_block(restart, restart_count) {
                Ok(()) => {},
                Err(e) => {
                    return Err(e);
                },
            }
            restart = restart + 1;
        }
        Ok(())
    }

    /// The first fault of one block of surfaces.
    fn validate_block(&self, restart: usize, restart_count: usize) -> (r: Result<(), Error>)
        requires
            self@.shaped(),
            self@.v2,
            restart < restart_count,
            restart_count == image::restarts(self@.surface_count),
        ensures
            match image::first(
                image::unless(
                    self@.restart_ok(restart as int),
                    Error::BadTable(image_format::TAG_SURFACE_OFFSETS),
                ),
                self@.block_error(
                    restart as int,
                    0,
                    image::offset(self@.surface_offsets, restart as int),
                    Seq::<u8>::empty(),
                ),
            ) {
                None => r is Ok,
                Some(e) => r == Err::<(), Error>(e),
            },
    {
        let bad_offsets = Error::BadTable(image_format::TAG_SURFACE_OFFSETS);
        let bad = Error::BadTable(image_format::TAG_SURFACES);
        let ghost v = self@;
        let ghost block = restart as int;
        let Some(start) = raw::read_offset(self.surface_offsets, restart) else {
            return Err(bad_offsets);
        };
        let end: usize = if restart + 1 < restart_count {
            let Some(next) = raw::read_offset(self.surface_offsets, restart + 1) else {
                return Err(bad_offsets);
            };
            next
        } else {
            self.surfaces.len()
        };
        if (restart == 0 && start != 0) || end > self.surfaces.len() || start >= end {
            return Err(bad_offsets);
        }
        if restart > 0 {
            let Some(previous) = raw::read_offset(self.surface_offsets, restart - 1) else {
                return Err(bad_offsets);
            };
            if previous >= start {
                return Err(bad_offsets);
            }
        }
        let remaining: usize = self.surface_count - image_format::SURFACE_RESTART_INTERVAL
            * restart;
        let records: usize = if remaining < image_format::SURFACE_RESTART_INTERVAL {
            remaining
        } else {
            image_format::SURFACE_RESTART_INTERVAL
        };
        let mut cursor: usize = start;
        let mut value: FixedStr<MAX_PREEDIT_BYTES> = FixedStr::new();
        assert(encode_utf8(value@) =~= Seq::<u8>::empty());
        let mut k: usize = 0;
        while k < records
            invariant
                v == self@,
                v.shaped(),
                v.v2,
                block == restart,
                v.restart_ok(block),
                records == v.block_len(block),
                end == v.block_end(block),
                end <= v.surfaces.len(),
                k <= records,
                cursor <= end,
                value.wf(),
                bad == Error::BadTable(image_format::TAG_SURFACES),
                v.block_error(
                    block,
                    0,
                    image::offset(v.surface_offsets, block),
                    Seq::<u8>::empty(),
                ) == v.block_error(block, k as int, cursor as int, encode_utf8(value@)),
            decreases records - k,
        {
            let Some(record) = packed_record(self.surfaces, cursor) else {
                return Err(bad);
            };
            if record.len() > end - cursor {
                return Err(bad);
            }
            match apply_record(&mut value, record, k == 0) {
                Ok(()) => {},
                Err(e) => {
                    return Err(e);
                },
            }
            cursor = cursor + record.len();
            k = k + 1;
        }
        if cursor != end {
            return Err(bad);
        }
        Ok(())
    }
}

} // verus!
