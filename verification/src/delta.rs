//! Sending only what changed of a file.

use copia::{CopiaError, Delta, DeltaOp, StrongHash, SyncBuilder};
use std::io::Cursor;
use vstd::prelude::*;

use crate::sync::{
    planned_upload, removal_wanted, root_wanted, FileAction, FoundFile, SyncModel,
};

verus! {

// ---------------------------------------------------------------------
// Deltas and patches
// ---------------------------------------------------------------------

/// `copia::CopiaError`: why a step of the delta algorithm failed.
#[verifier::external_type_specification]
#[verifier::external_body]
pub struct ExCopiaError(copia::CopiaError);

/// One step in making a file from another.
pub enum DeltaStep {
    /// Take that many bytes of the other file from this offset.
    Copy(u64, u32),
    /// Take these bytes.
    Literal(Vec<u8>),
}

/// One step in making a file from another, over sequences.
pub enum StepModel {
    Copy(u64, u32),
    Literal(Seq<u8>),
}

impl View for DeltaStep {
    type V = StepModel;

    open spec fn view(&self) -> StepModel {
        match self {
            DeltaStep::Copy(offset, len) => StepModel::Copy(*offset, *len),
            DeltaStep::Literal(b) => StepModel::Literal(b@),
        }
    }
}

/// How to make a file from another.
pub struct FileDelta {
    pub block_size: u32,
    pub source_size: u64,
    pub basis_size: u64,
    pub steps: Vec<DeltaStep>,
    pub checksum: [u8; 32],
}

/// How to make a file from another, over sequences.
pub struct DeltaModel {
    pub block_size: u32,
    pub source_size: u64,
    pub basis_size: u64,
    pub steps: Seq<StepModel>,
    pub checksum: [u8; 32],
}

/// The steps, over sequences.
pub open spec fn step_models(steps: Seq<DeltaStep>) -> Seq<StepModel> {
    steps.map_values(|s: DeltaStep| s@)
}

impl View for FileDelta {
    type V = DeltaModel;

    open spec fn view(&self) -> DeltaModel {
        DeltaModel {
            block_size: self.block_size,
            source_size: self.source_size,
            basis_size: self.basis_size,
            steps: step_models(self.steps@),
            checksum: self.checksum,
        }
    }
}

/// How many bytes a step makes.
pub open spec fn step_len(s: StepModel) -> nat {
    match s {
        StepModel::Copy(_, len) => len as nat,
        StepModel::Literal(b) => b.len(),
    }
}

/// How many bytes the steps make.
pub open spec fn made_len(steps: Seq<StepModel>) -> nat
    decreases steps.len(),
{
    if steps.len() == 0 {
        0
    } else {
        made_len(steps.drop_last()) + step_len(steps.last())
    }
}

/// Whether a step takes no bytes beyond the end of the other file.
pub open spec fn in_bounds(s: StepModel, basis: Seq<u8>) -> bool {
    match s {
        StepModel::Copy(offset, len) => offset + len <= basis.len(),
        StepModel::Literal(_) => true,
    }
}

/// The bytes that a step makes.
pub open spec fn step_bytes(s: StepModel, basis: Seq<u8>) -> Seq<u8> {
    match s {
        StepModel::Copy(offset, len) => basis.subrange(offset as int, offset + len),
        StepModel::Literal(b) => b,
    }
}

/// The bytes that the steps make from the other file.
pub open spec fn made_bytes(steps: Seq<StepModel>, basis: Seq<u8>) -> Seq<u8>
    decreases steps.len(),
{
    if steps.len() == 0 {
        Seq::empty()
    } else {
        made_bytes(steps.drop_last(), basis) + step_bytes(steps.last(), basis)
    }
}

/// The block sizes that there are.
pub open spec fn is_block_size(n: usize) -> bool {
    n == 512 || n == 1024 || n == 2048 || n == 4096 || n == 8192 || n == 16384 || n == 32768 || n
        == 65536
}

/// The delta that `copia` computes of a file against the signature of
/// another, with this block size; `None` where it fails.
pub uninterp spec fn copia_delta(
    source: Seq<u8>,
    basis: Seq<u8>,
    block_size: usize,
) -> Option<DeltaModel>;

/// Whether `copia` applies a delta to a file without an error.
pub uninterp spec fn copia_applies(basis: Seq<u8>, delta: DeltaModel) -> bool;

/// `copia::Sync::delta`, against what `copia::Sync::signature` gives of the
/// other file: how to make a file from another. Of a delta that is made, it
/// is stated that it records both sizes and that its steps make as many bytes
/// as the file has. Other block sizes than these make the builder panic.
#[verifier::external_body]
fn delta_of(source: &[u8], basis: &[u8], block_size: usize) -> (r: Result<FileDelta, CopiaError>)
    requires
        is_block_size(block_size),
    ensures
        match r {
            Ok(d) => {
                &&& copia_delta(source@, basis@, block_size) == Some(d@)
                &&& d.source_size == source@.len()
                &&& d.basis_size == basis@.len()
                &&& made_len(d@.steps) == source@.len()
            },
            Err(_) => copia_delta(source@, basis@, block_size) is None,
        },
{
    let engine = SyncBuilder::new().block_size(block_size).build();
    let signature = copia::Sync::signature(&engine, Cursor::new(basis))?;
    let d = copia::Sync::delta(&engine, Cursor::new(source), &signature)?;
    let step = |op| match op {
        DeltaOp::Copy { offset, len } => DeltaStep::Copy(offset, len),
        DeltaOp::Literal(data) => DeltaStep::Literal(data),
    };
    let steps = d.ops.into_iter().map(step).collect();
    let (block_size, source_size, basis_size) = (d.block_size, d.source_size, d.basis_size);
    Ok(FileDelta { block_size, source_size, basis_size, steps, checksum: *d.checksum.as_bytes() })
}

/// `copia::Sync::patch`: makes a file from another. Where it succeeds, no
/// step went beyond the end of the other file and the result is what the
/// steps make; whether it does also depends on the checksum in the delta,
/// which is not stated. A delta whose steps do not make as many bytes as it
/// records makes a debug build panic, and one that records another size of
/// the other file is checked against that size.
#[verifier::external_body]
fn patch_of(basis: &[u8], delta: &FileDelta) -> (r: Result<Vec<u8>, CopiaError>)
    requires
        made_len(delta@.steps) == delta.source_size,
        delta.basis_size == basis@.len(),
    ensures
        match r {
            Ok(out) => {
                &&& copia_applies(basis@, delta@)
                &&& forall|i: int|
                    0 <= i < delta@.steps.len() ==> in_bounds(#[trigger] delta@.steps[i], basis@)
                &&& out@ == made_bytes(delta@.steps, basis@)
            },
            Err(_) => !copia_applies(basis@, delta@),
        },
{
    let hash = StrongHash::from_bytes(delta.checksum);
    let (block, source, size) = (delta.block_size, delta.source_size, delta.basis_size);
    let mut d = Delta::with_checksum(block, source, size, hash);
    let op = |s: &DeltaStep| match s {
        DeltaStep::Copy(offset, len) => DeltaOp::Copy { offset: *offset, len: *len },
        DeltaStep::Literal(data) => DeltaOp::Literal(data.clone()),
    };
    d.ops = delta.steps.iter().map(op).collect();
    let mut out = Vec::new();
    copia::Sync::patch(&SyncBuilder::new().build(), Cursor::new(basis), &d, &mut out)?;
    Ok(out)
}

// ---------------------------------------------------------------------
// Comparing two files
// ---------------------------------------------------------------------

/// The block size for comparing files.
pub const BLOCK_SIZE: usize = 4096;

/// What a step costs to send: a literal its bytes, a copy a fixed number.
pub open spec fn step_cost(s: StepModel) -> nat {
    match s {
        StepModel::Copy(_, _) => 13,
        StepModel::Literal(b) => b.len(),
    }
}

/// What the steps cost to send.
pub open spec fn delta_cost(steps: Seq<StepModel>) -> nat
    decreases steps.len(),
{
    if steps.len() == 0 {
        0
    } else {
        delta_cost(steps.drop_last()) + step_cost(steps.last())
    }
}

fn cost_of(steps: &Vec<DeltaStep>) -> (r: u128)
    ensures
        r == delta_cost(step_models(steps@)),
{
    let ghost all = step_models(steps@);
    let mut sum: u128 = 0;
    let mut i: usize = 0;
    assert(all.take(0) =~= Seq::<StepModel>::empty());
    while i < steps.len()
        invariant
            i <= steps@.len(),
            all == step_models(steps@),
            sum == delta_cost(all.take(i as int)),
            sum <= i * 0x1_0000_0000_0000_0000,
        decreases steps@.len() - i,
    {
        proof {
            assert(all.take(i + 1).drop_last() =~= all.take(i as int));
            assert(all.take(i + 1).last() == steps@[i as int]@);
            assert(i * 0x1_0000_0000_0000_0000 + 0x1_0000_0000_0000_0000 == (i + 1)
                * 0x1_0000_0000_0000_0000) by (nonlinear_arith);
            assert(i < usize::MAX);
            assert(i * 0x1_0000_0000_0000_0000 <= 0xffff_ffff_ffff_ffff * 0x1_0000_0000_0000_0000)
                by (nonlinear_arith)
                requires
                    i <= 0xffff_ffff_ffff_ffff,
            ;
        }
        let cost: u128 = match &steps[i] {
            DeltaStep::Copy(_, _) => 13,
            DeltaStep::Literal(b) => b.len() as u128,
        };
        sum = sum + cost;
        i = i + 1;
    }
    assert(all.take(all.len() as int) =~= all);
    sum
}

/// What comparing two files of the same size comes to.
pub enum Comparison {
    /// They hold the same.
    Identical,
    /// The remote file becomes this.
    Patched(Vec<u8>),
    /// A delta saves nothing: the file is sent as a whole.
    Whole,
}

/// Why two files could not be compared.
pub enum DeltaError {
    Delta(CopiaError),
    Patch(CopiaError),
}

/// The step that failed.
#[derive(Clone, Copy, PartialEq, Eq, Structural, Debug)]
pub enum DeltaFault {
    Delta,
    Patch,
}

/// What comparing two files comes to, over sequences.
pub enum ComparisonModel {
    Identical,
    Patched(Seq<u8>),
    Whole,
    Failed(DeltaFault),
}

/// The contents of a comparison.
pub open spec fn comparison_model(r: Result<Comparison, DeltaError>) -> ComparisonModel {
    match r {
        Ok(Comparison::Identical) => ComparisonModel::Identical,
        Ok(Comparison::Patched(b)) => ComparisonModel::Patched(b@),
        Ok(Comparison::Whole) => ComparisonModel::Whole,
        Err(DeltaError::Delta(_)) => ComparisonModel::Failed(DeltaFault::Delta),
        Err(DeltaError::Patch(_)) => ComparisonModel::Failed(DeltaFault::Patch),
    }
}

/// What a delta comes to: it is applied to the remote file if it costs less
/// than the local file is long.
pub open spec fn applied(local: Seq<u8>, remote: Seq<u8>, delta: DeltaModel) -> ComparisonModel {
    if delta_cost(delta.steps) < local.len() {
        if copia_applies(remote, delta) {
            ComparisonModel::Patched(made_bytes(delta.steps, remote))
        } else {
            ComparisonModel::Failed(DeltaFault::Patch)
        }
    } else {
        ComparisonModel::Whole
    }
}

/// What comparing a local file with a remote one comes to.
pub open spec fn compared(local: Seq<u8>, remote: Seq<u8>) -> ComparisonModel {
    if local == remote {
        ComparisonModel::Identical
    } else {
        match copia_delta(local, remote, BLOCK_SIZE) {
            None => ComparisonModel::Failed(DeltaFault::Delta),
            Some(delta) => applied(local, remote, delta),
        }
    }
}

/// Whether two files hold the same bytes.
pub fn same_bytes(a: &[u8], b: &[u8]) -> (r: bool)
    ensures
        r == (a@ == b@),
{
    if a.len() != b.len() {
        return false;
    }
    let mut i: usize = 0;
    while i < a.len()
        invariant
            i <= a@.len(),
            a@.len() == b@.len(),
            forall|j: int| 0 <= j < i ==> a@[j] == b@[j],
        decreases a@.len() - i,
    {
        if a[i] != b[i] {
            return false;
        }
        i = i + 1;
    }
    assert(a@ =~= b@);
    true
}

/// Applies a delta where that pays; see [`applied`].
pub fn apply_delta(local: &[u8], remote: &[u8], delta: &FileDelta) -> (r: Result<
    Comparison,
    DeltaError,
>)
    requires
        made_len(delta@.steps) == delta.source_size,
        delta.basis_size == remote@.len(),
    ensures
        comparison_model(r) == applied(local@, remote@, delta@),
        r matches Ok(Comparison::Patched(out)) ==> out@.len() == delta.source_size,
{
    if cost_of(&delta.steps) < local.len() as u128 {
        match patch_of(remote, delta) {
            Ok(out) => {
                proof {
                    made_bytes_len(delta@.steps, remote@);
                }
                Ok(Comparison::Patched(out))
            },
            Err(e) => Err(DeltaError::Patch(e)),
        }
    } else {
        Ok(Comparison::Whole)
    }
}

/// Compares a local file with a remote one, and makes the new remote file
/// where a delta pays; see [`compared`]. What is made is as long as the local
/// file.
pub fn compare_contents(local: &[u8], remote: &[u8]) -> (r: Result<Comparison, DeltaError>)
    ensures
        comparison_model(r) == compared(local@, remote@),
        r matches Ok(Comparison::Patched(out)) ==> out@.len() == local@.len(),
{
    if same_bytes(local, remote) {
        return Ok(Comparison::Identical);
    }
    let delta = match delta_of(local, remote, BLOCK_SIZE) {
        Ok(d) => d,
        Err(e) => return Err(DeltaError::Delta(e)),
    };
    apply_delta(local, remote, &delta)
}

/// What is done with a file in the end.
pub enum AfterCompare {
    /// Nothing.
    Skip,
    /// The remote file is written with these bytes.
    Write(Vec<u8>),
    /// The local file is sent as a whole.
    Transfer,
    /// The remote file would be written.
    WouldTransfer,
}

/// What is done with a file in the end, over sequences.
pub enum AfterModel {
    Skip,
    Write(Seq<u8>),
    Transfer,
    WouldTransfer,
}

impl View for AfterCompare {
    type V = AfterModel;

    open spec fn view(&self) -> AfterModel {
        match self {
            AfterCompare::Skip => AfterModel::Skip,
            AfterCompare::Write(b) => AfterModel::Write(b@),
            AfterCompare::Transfer => AfterModel::Transfer,
            AfterCompare::WouldTransfer => AfterModel::WouldTransfer,
        }
    }
}

/// What follows a comparison. In a dry run nothing is written.
pub open spec fn after_model(c: ComparisonModel, dry_run: bool) -> AfterModel {
    match c {
        ComparisonModel::Patched(b) => if dry_run {
            AfterModel::WouldTransfer
        } else {
            AfterModel::Write(b)
        },
        ComparisonModel::Whole => if dry_run {
            AfterModel::WouldTransfer
        } else {
            AfterModel::Transfer
        },
        _ => AfterModel::Skip,
    }
}

/// Decides what follows a comparison; see [`after_model`].
pub fn after_compare(c: Comparison, dry_run: bool) -> (r: AfterCompare)
    ensures
        r@ == after_model(comparison_model(Ok(c)), dry_run),
{
    match c {
        Comparison::Identical => AfterCompare::Skip,
        Comparison::Patched(b) => if dry_run {
            AfterCompare::WouldTransfer
        } else {
            AfterCompare::Write(b)
        },
        Comparison::Whole => if dry_run {
            AfterCompare::WouldTransfer
        } else {
            AfterCompare::Transfer
        },
    }
}

/// What is done with a file without a comparison; `None` where one is called
/// for.
pub open spec fn direct_model(action: FileAction) -> Option<AfterModel> {
    match action {
        FileAction::Excluded => Some(AfterModel::Skip),
        FileAction::Same => Some(AfterModel::Skip),
        FileAction::Compare => None,
        FileAction::Transfer => Some(AfterModel::Transfer),
        FileAction::WouldTransfer => Some(AfterModel::WouldTransfer),
    }
}

/// Decides what is done with a file without a comparison; see
/// [`direct_model`].
pub fn direct_action(action: FileAction) -> (r: Option<AfterCompare>)
    ensures
        match r {
            Some(a) => direct_model(action) == Some(a@),
            None => direct_model(action) is None,
        },
{
    match action {
        FileAction::Excluded => Some(AfterCompare::Skip),
        FileAction::Same => Some(AfterCompare::Skip),
        FileAction::Compare => None,
        FileAction::Transfer => Some(AfterCompare::Transfer),
        FileAction::WouldTransfer => Some(AfterCompare::WouldTransfer),
    }
}

// ---------------------------------------------------------------------
// Laws
// ---------------------------------------------------------------------

/// What becomes of a remote file: the bytes it is written with, if it is
/// written.
pub open spec fn written_bytes(
    action: FileAction,
    c: ComparisonModel,
    dry_run: bool,
    local: Seq<u8>,
) -> Option<Seq<u8>> {
    let last = match direct_model(action) {
        Some(a) => a,
        None => after_model(c, dry_run),
    };
    match last {
        AfterModel::Write(b) => Some(b),
        AfterModel::Transfer => Some(local),
        _ => None,
    }
}

/// A dry run changes nothing on the remote side: whatever the files and
/// however they compare, no file is written, none is removed, and the root is
/// not created.
pub proof fn dry_run_changes_nothing(
    file: FoundFile,
    local_root: Seq<char>,
    remote_root: Seq<char>,
    remote: Seq<FoundFile>,
    options: SyncModel,
    c: ComparisonModel,
    local: Seq<u8>,
)
    requires
        options.dry_run,
    ensures
        written_bytes(
            planned_upload(file, local_root, remote_root, remote, options).action,
            c,
            options.dry_run,
            local,
        ) is None,
        !removal_wanted(options),
        !root_wanted(options),
{
}

/// Without a dry run a file that is neither excluded nor the same is written,
/// unless its contents turn out to be identical or the comparison fails.
pub proof fn changed_files_are_written(
    file: FoundFile,
    local_root: Seq<char>,
    remote_root: Seq<char>,
    remote: Seq<FoundFile>,
    options: SyncModel,
    c: ComparisonModel,
    local: Seq<u8>,
)
    requires
        !options.dry_run,
        c is Patched || c is Whole,
    ensures
        ({
            let action = planned_upload(file, local_root, remote_root, remote, options).action;
            written_bytes(action, c, options.dry_run, local) is None <==> action
                == FileAction::Excluded || action == FileAction::Same
        }),
{
}

/// What the steps make is as long as they say.
pub proof fn made_bytes_len(steps: Seq<StepModel>, basis: Seq<u8>)
    requires
        forall|i: int| 0 <= i < steps.len() ==> in_bounds(#[trigger] steps[i], basis),
    ensures
        made_bytes(steps, basis).len() == made_len(steps),
    decreases steps.len(),
{
    if steps.len() > 0 {
        let front = steps.drop_last();
        assert forall|i: int| 0 <= i < front.len() implies in_bounds(
            #[trigger] front[i],
            basis,
        ) by {
            assert(front[i] == steps[i]);
        }
        made_bytes_len(front, basis);
        assert(in_bounds(steps[steps.len() - 1], basis));
    }
}

/// Files are identical just if they hold the same bytes, and then nothing is
/// written.
pub proof fn identical_files_are_left_alone(local: Seq<u8>, remote: Seq<u8>, dry_run: bool)
    ensures
        compared(local, remote) is Identical <==> local == remote,
        local == remote ==> after_model(compared(local, remote), dry_run) is Skip,
        local != remote && !(compared(local, remote) is Failed) ==> !(after_model(
            compared(local, remote),
            dry_run,
        ) is Skip),
{
}

/// A delta is applied just if sending it costs less than sending the file, where
/// a copy costs 13 and new bytes cost their number; else the file is sent as a
/// whole.
pub proof fn deltas_are_applied_where_they_pay(
    local: Seq<u8>,
    remote: Seq<u8>,
    delta: DeltaModel,
    steps: Seq<StepModel>,
    offset: u64,
    len: u32,
    bytes: Seq<u8>,
)
    ensures
        delta_cost(delta.steps) >= local.len() <==> applied(local, remote, delta) is Whole,
        delta_cost(delta.steps) < local.len() && copia_applies(remote, delta) ==> applied(
            local,
            remote,
            delta,
        ) == ComparisonModel::Patched(made_bytes(delta.steps, remote)),
        delta_cost(Seq::empty()) == 0,
        delta_cost(steps.push(StepModel::Copy(offset, len))) == delta_cost(steps) + 13,
        delta_cost(steps.push(StepModel::Literal(bytes))) == delta_cost(steps) + bytes.len(),
{
    assert(steps.push(StepModel::Copy(offset, len)).drop_last() =~= steps);
    assert(steps.push(StepModel::Literal(bytes)).drop_last() =~= steps);
}

/// What is written in the end is what the comparison made, or the local file as a
/// whole; a dry run writes neither; and excluded and equal files are not touched.
pub proof fn written_files_hold_the_new_bytes(local: Seq<u8>, bytes: Seq<u8>, c: ComparisonModel)
    ensures
        written_bytes(FileAction::Transfer, c, false, local) == Some(local),
        written_bytes(FileAction::Compare, ComparisonModel::Patched(bytes), false, local) == Some(
            bytes,
        ),
        written_bytes(FileAction::Compare, ComparisonModel::Whole, false, local) == Some(local),
        written_bytes(FileAction::Compare, ComparisonModel::Identical, false, local) is None,
        written_bytes(FileAction::Compare, c, true, local) is None,
        written_bytes(FileAction::Excluded, c, false, local) is None,
        written_bytes(FileAction::Same, c, false, local) is None,
        written_bytes(FileAction::WouldTransfer, c, false, local) is None,
        direct_model(FileAction::Compare) is None,
        direct_model(FileAction::WouldTransfer) == Some(AfterModel::WouldTransfer),
        after_model(ComparisonModel::Patched(bytes), true) is WouldTransfer,
        after_model(ComparisonModel::Whole, true) is WouldTransfer,
{
}

/// Files that differ are compared by a delta over blocks of 4096 bytes, of the
/// local file against the remote one; where there is none, that is the failure.
pub proof fn files_are_compared_by_blocks(local: Seq<u8>, remote: Seq<u8>)
    requires
        local != remote,
    ensures
        copia_delta(local, remote, 4096) is None ==> compared(local, remote)
            == ComparisonModel::Failed(DeltaFault::Delta),
        copia_delta(local, remote, 4096) matches Some(delta) ==> compared(local, remote) == applied(
            local,
            remote,
            delta,
        ),
{
}

} // verus!
