//! The single-consumer writer logic: which bytes go to which rotating
//! output file, when a file opens, and when the size threshold closes
//! it. The file and gzip work itself is the application shell's; this
//! module decides and formats.
use vstd::prelude::*;

use crate::bytes::{dec_i, dec_u, push_ascii, push_bytes, push_dec_i, push_dec_padded, sb, zero_pad};
use crate::dates::{format_ts, is_ts_render};
use crate::transform::member_prefix;
use crate::{Element, Statement};

verus! {

/// The output file name for one index: `osm-NNNNNN.ttl.gz`.
pub open spec fn file_name_spec(index: int) -> Seq<u8> {
    sb("osm-") + zero_pad(dec_u(index as nat), 6) + sb(".ttl.gz")
}

/// Build the output file name for one index.
pub fn file_name(index: u32) -> (r: Vec<u8>)
    ensures
        r@ == file_name_spec(index as int),
{
    proof {
        reveal_strlit("osm-");
        reveal_strlit(".ttl.gz");
    }
    let mut out: Vec<u8> = Vec::new();
    push_ascii(&mut out, "osm-");
    push_dec_padded(&mut out, index as u64, 6);
    push_ascii(&mut out, ".ttl.gz");
    proof {
        assert(out@ =~= file_name_spec(index as int));
    }
    out
}

/// What the application shell must do for one statement: open a new
/// output file first, write the bytes, and close the file after.
pub struct WriteOp {
    /// Open `osm-<index>.ttl.gz` before writing.
    pub open_index: Option<u32>,
    /// The bytes to write to the current file.
    pub bytes: Vec<u8>,
    /// Close the current file after writing, flushing the stream.
    pub close_after: bool,
}

/// The bytes one Create statement puts in the output: element prefix,
/// decimal id, line break, body, line break.
pub open spec fn create_bytes(elem: Element, id: int, val: Seq<u8>) -> Seq<u8> {
    member_prefix(elem) + dec_i(id) + sb("\n") + val + sb("\n")
}

/// The single closing statement: the latest modification timestamp,
/// rendered as `t`.
pub open spec fn summary_bytes(t: Seq<u8>) -> Seq<u8> {
    sb("osmroot: schema:dateModified ") + t + sb(".\n")
}

/// The writer's state: the next file index, whether a file is open,
/// the uncompressed byte count of the open file, the size threshold,
/// and the largest Create timestamp seen.
pub struct Writer {
    /// Index the next opened file gets.
    pub file_index: u32,
    /// A file is currently open.
    pub file_open: bool,
    /// Uncompressed bytes written to the open file.
    pub size: usize,
    /// The threshold above which the open file is closed.
    pub max_file_size: usize,
    /// The largest Create timestamp seen so far.
    pub max_ts: i64,
}

impl Writer {
    /// No file open, sizes at zero, watermark at the epoch.
    pub open spec fn wf(self) -> bool {
        !self.file_open ==> self.size == 0
    }

    /// A fresh writer for the given size threshold.
    pub fn new(max_file_size: usize) -> (r: Writer)
        ensures
            r.wf(),
            r.file_index == 0,
            !r.file_open,
            r.size == 0,
            r.max_file_size == max_file_size,
            r.max_ts == 0,
    {
        Writer { file_index: 0, file_open: false, size: 0, max_file_size, max_ts: 0 }
    }

    /// Consume one statement. Skip and Delete write nothing and change
    /// nothing. A Create opens a file exactly when none is open, writes
    /// its bytes, raises the timestamp watermark, adds the body length
    /// to the size counter, and closes the file exactly when that
    /// counter then exceeds the threshold.
    pub fn on_statement(&mut self, stmt: Statement) -> (op: WriteOp)
        requires
            old(self).wf(),
            old(self).file_index < u32::MAX,
            (match stmt {
                Statement::Create { val, .. } => old(self).size + val@.len() <= usize::MAX,
                _ => true,
            }),
        ensures
            final(self).wf(),
            final(self).max_file_size == old(self).max_file_size,
            match stmt {
                Statement::Create { elem, id, ts, val } => {
                    &&& op.open_index == (if !old(self).file_open {
                        Some(old(self).file_index)
                    } else {
                        Option::<u32>::None
                    })
                    &&& final(self).file_index == (if !old(self).file_open {
                        old(self).file_index + 1
                    } else {
                        old(self).file_index as int
                    })
                    &&& op.bytes@ == create_bytes(elem, id as int, val@)
                    &&& op.close_after == (old(self).size + val@.len()
                        > old(self).max_file_size)
                    &&& final(self).file_open == !op.close_after
                    &&& final(self).size == (if op.close_after {
                        0int
                    } else {
                        old(self).size + val@.len()
                    })
                    &&& final(self).max_ts == (if ts > old(self).max_ts {
                        ts
                    } else {
                        old(self).max_ts
                    })
                },
                _ => op.open_index is None && op.bytes@.len() == 0 && !op.close_after
                    && *final(self) == *old(self),
            },
    {
        match stmt {
            Statement::Create { elem, id, ts, val } => {
                proof {
                    reveal_strlit("\n");
                    reveal_strlit("osmnode:");
                    reveal_strlit("osmway:");
                    reveal_strlit("osmrel:");
                }
                let open_index: Option<u32> = if !self.file_open {
                    let idx = self.file_index;
                    self.file_index = self.file_index + 1;
                    self.file_open = true;
                    Some(idx)
                } else {
                    None
                };
                let mut bytes: Vec<u8> = Vec::new();
                match elem {
                    Element::Node => push_ascii(&mut bytes, "osmnode:"),
                    Element::Way => push_ascii(&mut bytes, "osmway:"),
                    Element::Relation => push_ascii(&mut bytes, "osmrel:"),
                }
                push_dec_i(&mut bytes, id);
                push_ascii(&mut bytes, "\n");
                push_bytes(&mut bytes, &val);
                push_ascii(&mut bytes, "\n");
                if ts > self.max_ts {
                    self.max_ts = ts;
                }
                self.size = self.size + val.len();
                let close_after = self.size > self.max_file_size;
                if close_after {
                    self.file_open = false;
                    self.size = 0;
                }
                proof {
                    assert(bytes@ =~= create_bytes(elem, id as int, val@));
                }
                WriteOp { open_index, bytes, close_after }
            },
            _ => WriteOp { open_index: None, bytes: Vec::new(), close_after: false },
        }
    }

    /// Close the stream of statements: one more file is allocated, and
    /// it holds exactly the summary line with the latest modification
    /// timestamp.
    pub fn finish(&mut self) -> (r: (u32, Vec<u8>))
        requires
            old(self).file_index < u32::MAX,
        ensures
            r.0 == old(self).file_index,
            final(self).file_index == old(self).file_index + 1,
            exists|t: Seq<u8>|
                is_ts_render(old(self).max_ts as int, t) && r.1@ == #[trigger] summary_bytes(t),
    {
        proof {
            reveal_strlit("osmroot: schema:dateModified ");
            reveal_strlit(".\n");
        }
        let idx = self.file_index;
        self.file_index = self.file_index + 1;
        let mut out: Vec<u8> = Vec::new();
        push_ascii(&mut out, "osmroot: schema:dateModified ");
        let ts = format_ts(self.max_ts);
        push_bytes(&mut out, &ts);
        push_ascii(&mut out, ".\n");
        proof {
            assert(out@ =~= summary_bytes(ts@));
        }
        (idx, out)
    }
}

} // verus!
