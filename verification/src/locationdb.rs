//! The output cursor: where the next byte lands in the file and in the
//! address space, and the final position of every instruction.

use vstd::prelude::*;
use crate::diags::{Diags, DiagView, Severity, SourceSpan};
use crate::fmt::{cat, digits, u64_to_dec};

verus! {

/// The address part of the cursor.
#[derive(Clone, Copy, Debug, PartialEq, Eq, Structural)]
pub struct AddressState {
    /// Offset from the most recent address base.
    pub addr_offset: u64,
    /// Offset within the current section.
    pub sec_offset: u64,
    /// The address base set by the last `set_addr`, or the start address.
    pub addr_base: u64,
}

impl AddressState {
    /// Moves the cursor forward by `sz` bytes; the section offset saturates.
    pub fn advance(&mut self, sz: u64)
        requires
            old(self).addr_offset + sz <= u64::MAX,
        ensures
            final(self).sec_offset == if old(self).sec_offset + sz <= u64::MAX {
                (old(self).sec_offset + sz) as u64
            } else {
                u64::MAX
            },
            final(self).addr_offset == old(self).addr_offset + sz,
            final(self).addr_base == old(self).addr_base,
    {
        self.sec_offset = self.sec_offset.saturating_add(sz);
        self.addr_offset = self.addr_offset + sz;
    }
}

/// The full cursor: file offset and address state.
#[derive(Clone, Copy, Debug, PartialEq, Eq, Structural)]
pub struct Location {
    pub file_offset: u64,
    pub addr: AddressState,
}

pub open spec fn err_at(code: Seq<char>, msg: Seq<char>, loc: SourceSpan) -> DiagView {
    DiagView { severity: Severity::Error, code, msg, primary: Some(loc), secondaries: Seq::empty() }
}

impl Location {
    /// Moves the cursor forward by `size` bytes.  Fails, leaving the cursor
    /// unchanged, when the file offset or the absolute address
    /// (base + offset) would overflow.
    pub fn advance(&mut self, size: u64, src_loc: &SourceSpan, diags: &mut Diags) -> (ok: bool)
        requires
            old(self).addr.addr_offset <= old(self).file_offset,
        ensures
            final(diags).files_view() == old(diags).files_view(),
            ok <==> (old(self).file_offset + size <= u64::MAX && old(self).addr.addr_base
                + old(self).addr.addr_offset + size <= u64::MAX),
            ok ==> final(self).file_offset == old(self).file_offset + size
                && final(self).addr.addr_offset == old(self).addr.addr_offset + size
                && final(self).addr.sec_offset == (if old(self).addr.sec_offset + size <= u64::MAX {
                    (old(self).addr.sec_offset + size) as u64
                } else {
                    u64::MAX
                })
                && final(self).addr.addr_base == old(self).addr.addr_base
                && final(diags).records() == old(diags).records(),
            !ok ==> *final(self) == *old(self),
            old(self).file_offset + size > u64::MAX ==> final(diags).records() == old(diags).records().push(
                err_at("EXEC_37"@, "Write operation causes file offset overflow"@, *src_loc),
            ),
            (old(self).file_offset + size <= u64::MAX && old(self).addr.addr_base + old(self).addr.addr_offset
                + size > u64::MAX) ==> final(diags).records() == old(diags).records().push(
                err_at("EXEC_43"@, "Write operation causes absolute address overflow"@, *src_loc),
            ),
            final(self).addr.addr_offset <= final(self).file_offset,
    {
        proof {
            reveal_strlit("EXEC_37");
            reveal_strlit("EXEC_43");
            reveal_strlit("Write operation causes file offset overflow");
            reveal_strlit("Write operation causes absolute address overflow");
        }
        let new_file_pos = match self.file_offset.checked_add(size) {
            Some(v) => v,
            None => {
                diags.err1("EXEC_37", "Write operation causes file offset overflow", *src_loc);
                return false;
            },
        };
        let new_off = self.addr.addr_offset + size;
        if self.addr.addr_base.checked_add(new_off).is_none() {
            diags.err1("EXEC_43", "Write operation causes absolute address overflow", *src_loc);
            return false;
        }
        self.file_offset = new_file_pos;
        self.addr.addr_offset = new_off;
        self.addr.sec_offset = self.addr.sec_offset.saturating_add(size);
        true
    }

    /// "file offset F, addr offset A, sec offset S".
    pub fn describe(&self) -> (s: String)
        ensures
            s@ == "file offset "@ + digits(self.file_offset as nat, 10) + ", addr offset "@ + digits(
                self.addr.addr_offset as nat,
                10,
            ) + ", sec offset "@ + digits(self.addr.sec_offset as nat, 10),
    {
        proof {
            reveal_strlit("file offset ");
            reveal_strlit(", addr offset ");
            reveal_strlit(", sec offset ");
        }
        cat(cat(cat(cat(cat(String::from_str("file offset "), u64_to_dec(self.file_offset).as_str()),
            ", addr offset "), u64_to_dec(self.addr.addr_offset).as_str()), ", sec offset "),
            u64_to_dec(self.addr.sec_offset).as_str())
    }
}

/// The final cursor position before each instruction.
pub struct LocationDb {
    pub ir_locs: Vec<Location>,
}

} // verus!
