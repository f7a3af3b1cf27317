//! `DumpTable=1`: whether the hook's first call copies the gimmickinfo table
//! body out of the loader's stream buffer, and the name of the file it lands
//! in.

use vstd::prelude::*;

verus! {

/// What the dump is written as, beside the log.
pub const FILE_NAME: &'static str = "DesertTooling.gimmickinfo.bin";

/// The largest stream size a dump is taken for: 256 MiB.
pub const MAX_DUMP: usize = 268435456;

pub const NEEDS_DRY_RUN: &'static str = "DumpTable=1 ignored: needs DryRun=1 so the copy is vanilla";
pub const ZERO_SIZE: &'static str = "table NOT dumped: the stream reports a size of 0, so the stream layout does not hold on this build";
pub const TOO_LARGE: &'static str = "table NOT dumped: the stream reports a size over 256 MiB against ~22 MB expected, so the stream layout does not hold on this build";

/// What the hook's first call does about the dump.
#[derive(Debug, Clone, Copy, PartialEq, Eq)]
pub enum DumpDecision {
    /// `DumpTable=0`: nothing to do, and nothing to say.
    Skip,
    /// `DumpTable=1`, but the copy would not be trustworthy or the stream
    /// does not look like the one the layout model describes; the text is the
    /// log line's body.
    Refuse(&'static str),
    /// Copy `size` bytes from the stream buffer.
    Take,
}

/// Decide whether the hook's first call copies the table body. `DryRun` is
/// required so that every byte copied is the one the game read off disk, and
/// it is checked before the size so that the player is told what they can
/// fix.
pub fn dump_decision(dump_table: bool, dry_run: bool, size: usize) -> (r: DumpDecision)
    ensures
        !dump_table ==> r is Skip,
        dump_table && !dry_run ==> (r matches DumpDecision::Refuse(w) && w@ == NEEDS_DRY_RUN@),
        dump_table && dry_run && size == 0 ==> (r matches DumpDecision::Refuse(w) && w@ == ZERO_SIZE@),
        dump_table && dry_run && size > MAX_DUMP ==> (r matches DumpDecision::Refuse(w) && w@
            == TOO_LARGE@),
        dump_table && dry_run && 0 < size <= MAX_DUMP ==> r is Take,
{
    if !dump_table {
        return DumpDecision::Skip;
    }
    if !dry_run {
        return DumpDecision::Refuse(NEEDS_DRY_RUN);
    }
    if size == 0 {
        return DumpDecision::Refuse(ZERO_SIZE);
    }
    if size > MAX_DUMP {
        return DumpDecision::Refuse(TOO_LARGE);
    }
    DumpDecision::Take
}

} // verus!
