//! Turning a program image into the brick's download command sequence.
use vstd::prelude::*;
use vstd::arithmetic::div_mod::lemma_add_mod_noop;
use crate::binfmt::{RcxBin, RcxBinView, SectionView};

verus! {

/// The most bytes one transfer command carries.
pub const BLOCK_SIZE: usize = 256;

/// The highest program slot of the brick.
pub const MAX_PROGRAM_SLOT: u8 = 9;

/// How the last, possibly short, block of a section goes on the wire.
#[derive(Clone, Copy, Debug, PartialEq, Eq, Structural)]
pub enum FinalBlock {
    /// The block holds only the bytes left over.
    Natural,
    /// The block is filled with zero bytes up to `BLOCK_SIZE`.
    ZeroPadded,
}

pub struct BlockView {
    pub index: i16,
    pub length: u16,
    pub data: Seq<u8>,
    pub checksum: u8,
}

/// One transfer of a section's payload.
#[derive(Clone, Debug, PartialEq, Eq)]
pub struct Block {
    pub index: i16,
    pub length: u16,
    pub data: Vec<u8>,
    pub checksum: u8,
}

impl View for Block {
    type V = BlockView;

    open spec fn view(&self) -> BlockView {
        BlockView { index: self.index, length: self.length, data: self.data@, checksum: self.checksum }
    }
}

/// The sum of the bytes of `s`.
pub open spec fn byte_sum(s: Seq<u8>) -> nat
    decreases s.len(),
{
    if s.len() == 0 {
        0
    } else {
        byte_sum(s.drop_last()) + s.last() as nat
    }
}

/// The sum of the bytes of `s`, modulo 256.
pub open spec fn checksum_of(s: Seq<u8>) -> u8 {
    (byte_sum(s) % 256) as u8
}

/// How many blocks a payload of `len` bytes takes.
pub open spec fn block_count(len: nat) -> nat {
    if len == 0 {
        0
    } else {
        ((len - 1) / (BLOCK_SIZE as int) + 1) as nat
    }
}

/// The payload bytes that block `k` covers.
pub open spec fn block_span(data: Seq<u8>, k: int) -> Seq<u8> {
    let start = k * BLOCK_SIZE;
    let end = if start + BLOCK_SIZE < data.len() { start + BLOCK_SIZE } else { data.len() as int };
    data.subrange(start, end)
}

/// The bytes that block `k` carries.
pub open spec fn block_bytes(data: Seq<u8>, k: int, last: FinalBlock) -> Seq<u8> {
    let span = block_span(data, k);
    match last {
        FinalBlock::Natural => span,
        FinalBlock::ZeroPadded => span + Seq::new((BLOCK_SIZE - span.len()) as nat, |i: int| 0u8),
    }
}

/// The sequence index of block `k`: the last block is 0, the others count from 1.
pub open spec fn block_index(len: nat, k: int) -> i16 {
    if k + 1 == block_count(len) {
        0
    } else {
        (k + 1) as i16
    }
}

pub open spec fn block_at(data: Seq<u8>, k: int, last: FinalBlock) -> BlockView {
    let bytes = block_bytes(data, k, last);
    BlockView { index: block_index(data.len(), k), length: bytes.len() as u16, data: bytes, checksum: checksum_of(bytes) }
}

/// The blocks that carry `data`, in order.
pub open spec fn frame_spec(data: Seq<u8>, last: FinalBlock) -> Seq<BlockView> {
    Seq::new(block_count(data.len()), |k: int| block_at(data, k, last))
}

pub open spec fn blocks_view(v: Seq<Block>) -> Seq<BlockView> {
    v.map_values(|b: Block| b@)
}

/// The sum of `bytes` modulo 256.
pub fn checksum(bytes: &[u8]) -> (r: u8)
    ensures
        r == checksum_of(bytes@),
{
    let mut acc: u8 = 0;
    let mut i: usize = 0;
    while i < bytes.len()
        invariant
            i <= bytes@.len(),
            acc == byte_sum(bytes@.take(i as int)) % 256,
        decreases bytes@.len() - i,
    {
        proof {
            let t = bytes@.take(i as int + 1);
            assert(t.drop_last() =~= bytes@.take(i as int));
            lemma_add_mod_noop(byte_sum(bytes@.take(i as int)) as int, bytes@[i as int] as int, 256);
        }
        acc = ((acc as u16 + bytes[i] as u16) % 256) as u8;
        i += 1;
    }
    assert(bytes@.take(i as int) =~= bytes@);
    acc
}

/// Splits one section's payload into blocks of at most `BLOCK_SIZE` bytes,
/// each with its index and checksum.
pub fn frame(data: &[u8], last: FinalBlock) -> (r: Vec<Block>)
    requires
        data@.len() <= u16::MAX,
    ensures
        blocks_view(r@) == frame_spec(data@, last),
{
    let n = data.len();
    let count: usize = if n == 0 { 0 } else { (n - 1) / BLOCK_SIZE + 1 };
    assert(count <= 256);
    let mut blocks: Vec<Block> = Vec::new();
    let mut k: usize = 0;
    let mut start: usize = 0;
    while k < count
        invariant
            n == data@.len(),
            n <= u16::MAX,
            count == block_count(n as nat),
            count <= 256,
            k <= count,
            start == k * BLOCK_SIZE,
            blocks_view(blocks@) == frame_spec(data@, last).take(k as int),
        decreases count - k,
    {
        assert(start < n) by (nonlinear_arith)
            requires
                start == k * 256,
                k < count,
                count == (n - 1) / 256 + 1,
                n > 0,
        {
        }
        let end = if n - start > BLOCK_SIZE { start + BLOCK_SIZE } else { n };
        let mut bytes: Vec<u8> = Vec::new();
        let mut i: usize = start;
        while i < end
            invariant
                start <= i <= end <= n,
                n == data@.len(),
                bytes@ == data@.subrange(start as int, i as int),
            decreases end - i,
        {
            bytes.push(data[i]);
            i += 1;
            assert(bytes@ =~= data@.subrange(start as int, i as int));
        }
        let ghost span = bytes@;
        assert(span == block_span(data@, k as int));
        match last {
            FinalBlock::Natural => {},
            FinalBlock::ZeroPadded => {
                while bytes.len() < BLOCK_SIZE
                    invariant
                        span.len() <= bytes@.len() <= BLOCK_SIZE,
                        bytes@ == span + Seq::new((bytes@.len() - span.len()) as nat, |i: int| 0u8),
                    decreases BLOCK_SIZE - bytes@.len(),
                {
                    bytes.push(0);
                    assert(bytes@ =~= span + Seq::new((bytes@.len() - span.len()) as nat, |i: int| 0u8));
                }
            },
        }
        assert(bytes@ == block_bytes(data@, k as int, last));
        let index: i16 = if k + 1 == count { 0 } else { (k + 1) as i16 };
        let sum = checksum(bytes.as_slice());
        let length = bytes.len() as u16;
        let block = Block { index, length, data: bytes, checksum: sum };
        let ghost before = blocks_view(blocks@);
        blocks.push(block);
        assert(blocks_view(blocks@) =~= frame_spec(data@, last).take(k as int + 1)) by {
            assert(blocks_view(blocks@) =~= before.push(block@));
        }
        k += 1;
        start += BLOCK_SIZE;
    }
    assert(frame_spec(data@, last).take(k as int) =~= frame_spec(data@, last));
    blocks
}

/// The brick's built-in sounds.
#[derive(Clone, Copy, Debug, PartialEq, Eq, Structural)]
pub enum Sound {
    Blip,
    BeepBeep,
    DownwardTones,
    UpwardTones,
    LowBuzz,
    FastUpwardTones,
}

/// The tone that marks a finished download.
pub open spec fn success_sound() -> Sound {
    Sound::FastUpwardTones
}

pub enum CommandView {
    StopAllTasks,
    SetProgramNumber(u8),
    DeleteAllTasks,
    DeleteAllSubroutines,
    StartTaskDownload { number: u8, length: u16 },
    TransferData { index: i16, length: u16, data: Seq<u8>, checksum: u8 },
    PlaySound(Sound),
}

/// One operation of the device transport.
#[derive(Clone, Debug, PartialEq, Eq)]
pub enum DeviceCommand {
    StopAllTasks,
    SetProgramNumber(u8),
    DeleteAllTasks,
    DeleteAllSubroutines,
    StartTaskDownload { number: u8, length: u16 },
    TransferData { index: i16, length: u16, data: Vec<u8>, checksum: u8 },
    PlaySound(Sound),
}

impl View for DeviceCommand {
    type V = CommandView;

    open spec fn view(&self) -> CommandView {
        match self {
            DeviceCommand::StopAllTasks => CommandView::StopAllTasks,
            DeviceCommand::SetProgramNumber(s) => CommandView::SetProgramNumber(*s),
            DeviceCommand::DeleteAllTasks => CommandView::DeleteAllTasks,
            DeviceCommand::DeleteAllSubroutines => CommandView::DeleteAllSubroutines,
            DeviceCommand::StartTaskDownload { number, length } => CommandView::StartTaskDownload {
                number: *number,
                length: *length,
            },
            DeviceCommand::TransferData { index, length, data, checksum } => CommandView::TransferData {
                index: *index,
                length: *length,
                data: data@,
                checksum: *checksum,
            },
            DeviceCommand::PlaySound(s) => CommandView::PlaySound(*s),
        }
    }
}

/// Why no command sequence was produced.
#[derive(Clone, Copy, Debug, PartialEq, Eq, Structural)]
pub enum DownloadError {
    /// The slot is not in `0..=MAX_PROGRAM_SLOT`.
    InvalidSlot,
    /// A section's payload is longer than a 16-bit length can state.
    SectionTooLarge,
}

pub open spec fn commands_view(v: Seq<DeviceCommand>) -> Seq<CommandView> {
    v.map_values(|c: DeviceCommand| c@)
}

/// The commands that clear the brick and select `slot`.
pub open spec fn prepare_commands(slot: u8) -> Seq<CommandView> {
    seq![
        CommandView::StopAllTasks,
        CommandView::SetProgramNumber(slot),
        CommandView::DeleteAllTasks,
        CommandView::DeleteAllSubroutines,
    ]
}

pub open spec fn transfer_of(b: BlockView) -> CommandView {
    CommandView::TransferData { index: b.index, length: b.length, data: b.data, checksum: b.checksum }
}

/// The announcement of one section followed by the transfer of each of its blocks.
pub open spec fn section_commands(sec: SectionView, last: FinalBlock) -> Seq<CommandView> {
    seq![CommandView::StartTaskDownload { number: sec.number, length: sec.data.len() as u16 }]
        + frame_spec(sec.data, last).map_values(|b: BlockView| transfer_of(b))
}

/// The commands of each section of `secs`, in order.
pub open spec fn sections_commands(secs: Seq<SectionView>, last: FinalBlock) -> Seq<CommandView>
    decreases secs.len(),
{
    if secs.len() == 0 {
        Seq::empty()
    } else {
        sections_commands(secs.drop_last(), last) + section_commands(secs.last(), last)
    }
}

/// The whole download of `image` into `slot`.
pub open spec fn download_spec(image: RcxBinView, slot: u8, last: FinalBlock) -> Seq<CommandView> {
    prepare_commands(slot) + sections_commands(image.sections, last) + seq![CommandView::PlaySound(success_sound())]
}

/// Some section's payload is longer than `u16::MAX`.
pub open spec fn has_oversized_section(secs: Seq<SectionView>) -> bool {
    exists|i: int| 0 <= i < secs.len() && secs[i].data.len() > u16::MAX
}

pub open spec fn download_result(image: RcxBinView, slot: u8, last: FinalBlock) -> Result<Seq<CommandView>, DownloadError> {
    if slot > MAX_PROGRAM_SLOT {
        Err(DownloadError::InvalidSlot)
    } else if has_oversized_section(image.sections) {
        Err(DownloadError::SectionTooLarge)
    } else {
        Ok(download_spec(image, slot, last))
    }
}

pub open spec fn commands_result_view(r: Result<Vec<DeviceCommand>, DownloadError>) -> Result<Seq<CommandView>, DownloadError> {
    match r {
        Ok(v) => Ok(commands_view(v@)),
        Err(e) => Err(e),
    }
}

/// The commands that download `image` into program slot `slot`: prepare the
/// slot, then for each section its announcement and its blocks, then the
/// success tone.
pub fn download(image: &RcxBin, slot: u8, last: FinalBlock) -> (r: Result<Vec<DeviceCommand>, DownloadError>)
    ensures
        commands_result_view(r) == download_result(image@, slot, last),
{
    if slot > MAX_PROGRAM_SLOT {
        return Err(DownloadError::InvalidSlot);
    }
    let ghost secs = image@.sections;
    let n = image.sections.len();
    let mut i: usize = 0;
    while i < n
        invariant
            n == image.sections@.len(),
            secs == image@.sections,
            slot <= MAX_PROGRAM_SLOT,
            i <= n,
            forall|j: int| 0 <= j < i ==> secs[j].data.len() <= u16::MAX,
        decreases n - i,
    {
        if image.sections[i].data.len() > 0xFFFF {
            assert(secs[i as int] == image.sections@[i as int]@);
            assert(secs[i as int].data.len() > u16::MAX);
            return Err(DownloadError::SectionTooLarge);
        }
        i += 1;
    }
    let mut cmds: Vec<DeviceCommand> = Vec::new();
    cmds.push(DeviceCommand::StopAllTasks);
    cmds.push(DeviceCommand::SetProgramNumber(slot));
    cmds.push(DeviceCommand::DeleteAllTasks);
    cmds.push(DeviceCommand::DeleteAllSubroutines);
    assert(commands_view(cmds@) =~= prepare_commands(slot) + sections_commands(secs.take(0), last)) by {
        assert(secs.take(0).len() == 0);
    }
    let mut i: usize = 0;
    while i < n
        invariant
            n == image.sections@.len(),
            secs == image@.sections,
            i <= n,
            forall|j: int| 0 <= j < n ==> secs[j].data.len() <= u16::MAX,
            commands_view(cmds@) == prepare_commands(slot) + sections_commands(secs.take(i as int), last),
        decreases n - i,
    {
        let section = &image.sections[i];
        assert(section@ == secs[i as int]);
        let ghost before = commands_view(cmds@);
        cmds.push(DeviceCommand::StartTaskDownload { number: section.number, length: section.data.len() as u16 });
        let blocks = frame(section.data.as_slice(), last);
        let ghost transfers = frame_spec(section.data@, last).map_values(|b: BlockView| transfer_of(b));
        let ghost start = commands_view(cmds@);
        assert(start =~= before + seq![CommandView::StartTaskDownload { number: section.number, length: section.data@.len() as u16 }]);
        let mut blocks = blocks;
        let ghost all = blocks_view(blocks@);
        let ghost mut k: int = 0;
        while blocks.len() > 0
            invariant
                0 <= k <= all.len(),
                i < n,
                n == image.sections@.len(),
                secs == image@.sections,
                all == frame_spec(secs[i as int].data, last),
                transfers == all.map_values(|b: BlockView| transfer_of(b)),
                blocks_view(blocks@) == all.subrange(k, all.len() as int),
                commands_view(cmds@) == start + transfers.take(k),
            decreases blocks@.len(),
        {
            let ghost b0 = blocks_view(blocks@);
            let ghost c0 = commands_view(cmds@);
            let ghost ob = blocks@;
            let b = blocks.remove(0);
            assert(b@ == all[k]) by {
                assert(b == ob[0]);
                assert(b0.len() == ob.len());
                assert(k < all.len());
                assert(b0[0] == ob[0]@);
                assert(b0[0] == all[k]);
            }
            assert(blocks_view(blocks@) =~= all.subrange(k + 1, all.len() as int)) by {
                assert(blocks_view(blocks@) =~= b0.subrange(1, b0.len() as int));
            }
            cmds.push(DeviceCommand::TransferData { index: b.index, length: b.length, data: b.data, checksum: b.checksum });
            proof {
                assert(commands_view(cmds@) =~= c0.push(transfer_of(all[k])));
                assert(transfers.take(k + 1) =~= transfers.take(k).push(transfer_of(all[k])));
                k = k + 1;
            }
        }
        proof {
            assert(transfers.take(k) =~= transfers);
            let t = secs.take(i as int + 1);
            assert(t.drop_last() =~= secs.take(i as int));
            assert(t.last() == secs[i as int]);
            assert(commands_view(cmds@) =~= prepare_commands(slot) + sections_commands(t, last));
        }
        i += 1;
    }
    let ghost c0 = commands_view(cmds@);
    cmds.push(DeviceCommand::PlaySound(Sound::FastUpwardTones));
    assert(secs.take(n as int) =~= secs);
    assert(commands_view(cmds@) =~= c0.push(CommandView::PlaySound(success_sound())));
    assert(commands_view(cmds@) =~= download_spec(image@, slot, last));
    Ok(cmds)
}

/// A block of zero bytes only has checksum 0.
pub proof fn lemma_zero_block_checksum(s: Seq<u8>)
    requires
        forall|i: int| 0 <= i < s.len() ==> s[i] == 0,
    ensures
        checksum_of(s) == 0,
{
    lemma_zero_bytes_sum(s);
}

proof fn lemma_zero_bytes_sum(s: Seq<u8>)
    requires
        forall|i: int| 0 <= i < s.len() ==> s[i] == 0,
    ensures
        byte_sum(s) == 0,
    decreases s.len(),
{
    if s.len() > 0 {
        lemma_zero_bytes_sum(s.drop_last());
    }
}

/// How a payload of `L` bytes, at most `u16::MAX`, is framed: no block when `L` is 0, else
/// `ceil(L / 256)` blocks; the blocks are consecutive spans of the payload from
/// its first byte to its last, all full but the final one; the final block has
/// index 0 and the others 1, 2, 3, ... in order; each checksum is the sum of the
/// block's bytes modulo 256.
pub proof fn lemma_chunking(data: Seq<u8>, last: FinalBlock)
    requires
        data.len() <= u16::MAX,
    ensures
        ({
            let blocks = frame_spec(data, last);
            let n = blocks.len();
            &&& data.len() == 0 ==> n == 0
            &&& data.len() > 0 ==> n == (data.len() + 255) / 256
            &&& n > 0 ==> blocks[n - 1].index == 0
            &&& forall|k: int| 0 <= k < n - 1 ==> blocks[k].index == k + 1
            &&& forall|k: int| 0 <= k < n ==> blocks[k].checksum == checksum_of(blocks[k].data)
            &&& forall|k: int| 0 <= k < n - 1 ==> block_span(data, k) == data.subrange(k * 256, (k + 1) * 256)
            &&& n > 0 ==> block_span(data, n - 1) == data.subrange((n - 1) * 256, data.len() as int)
            &&& forall|k: int| 0 <= k < n ==> block_bytes(data, k, FinalBlock::Natural) == block_span(data, k)
        }),
{
    let len = data.len();
    let n = block_count(len);
    if len > 0 {
        assert((len - 1) / 256 + 1 == (len + 255) / 256) by (nonlinear_arith)
            requires
                len > 0,
        {
        }
        assert(n <= 256) by (nonlinear_arith)
            requires
                n == (len - 1) / 256 + 1,
                len <= 65535,
        {
        }
        assert forall|k: int| 0 <= k < n - 1 implies #[trigger] block_span(data, k) == data.subrange(k * 256, (k + 1) * 256) by {
            assert(k * 256 + 256 < len && (k + 1) * 256 == k * 256 + 256) by (nonlinear_arith)
                requires
                    0 <= k < n - 1,
                    n == (len - 1) / 256 + 1,
            {
            }
        }
        assert((n - 1) * 256 + 256 >= len && (n - 1) * 256 < len) by (nonlinear_arith)
            requires
                n == (len - 1) / 256 + 1,
                len > 0,
        {
        }
    }
}

/// For a slot in range, the download begins with stop-all-tasks,
/// set-program-number(slot), delete-all-tasks and delete-all-subroutines, ends
/// with the success tone, and between them holds each section's commands in
/// the image's order.
pub proof fn lemma_command_order(image: RcxBinView, slot: u8, last: FinalBlock)
    requires
        slot <= MAX_PROGRAM_SLOT,
        !has_oversized_section(image.sections),
    ensures
        download_result(image, slot, last) is Ok,
        ({
            let c = download_result(image, slot, last)->Ok_0;
            &&& c.len() >= 5
            &&& c[0] == CommandView::StopAllTasks
            &&& c[1] == CommandView::SetProgramNumber(slot)
            &&& c[2] == CommandView::DeleteAllTasks
            &&& c[3] == CommandView::DeleteAllSubroutines
            &&& c[c.len() - 1] == CommandView::PlaySound(success_sound())
            &&& c.subrange(4, c.len() - 1) == sections_commands(image.sections, last)
        }),
        forall|k: int| 0 <= k < image.sections.len() ==> sections_commands(image.sections.take(k + 1), last)
            == sections_commands(image.sections.take(k), last) + section_commands(image.sections[k], last),
{
    let c = download_result(image, slot, last)->Ok_0;
    let mid = sections_commands(image.sections, last);
    assert(c =~= prepare_commands(slot) + mid + seq![CommandView::PlaySound(success_sound())]);
    assert(c.subrange(4, c.len() - 1) =~= mid);
    assert forall|k: int| 0 <= k < image.sections.len() implies sections_commands(image.sections.take(k + 1), last)
        == sections_commands(image.sections.take(k), last) + section_commands(image.sections[k], last) by {
        let t = image.sections.take(k + 1);
        assert(t.drop_last() =~= image.sections.take(k));
    }
}

} // verus!
