//! The `.rcx` program image format.
//!
//! ```text
//! signature      4 bytes, "RCXI"
//! version        2 bytes, little endian
//! section_count  2 bytes, little endian
//! symbol_count   2 bytes, little endian
//! target_type    1 byte
//! reserved       1 byte
//! section_count sections:  kind (1), number (1), length (2), data (length)
//! symbol_count symbols:    kind (1), index (1), length (2), name (length, ends in 0)
//! ```
use vstd::prelude::*;

verus! {

/// The most sections one image may hold.
pub const MAX_SECTIONS: usize = 10;

/// Offset of the first section record.
pub const HEADER_LEN: usize = 12;

/// Why a buffer is not an acceptable program image.
#[derive(Clone, Copy, Debug, PartialEq, Eq, Structural)]
pub enum ParseError {
    /// The buffer does not start with `RCXI`.
    BadSignature,
    /// A field reaches past the end of the buffer.
    Truncated,
    /// A section kind byte is not one of the known kinds.
    UnknownSectionKind,
    /// A symbol name does not end in its single zero byte.
    NameNotTerminated,
    /// A declared count differs from the number of records.
    CountMismatch,
    /// More than `MAX_SECTIONS` sections.
    TooManySections,
    /// Two sections share a number.
    DuplicateSectionNumber,
    /// Bytes follow the last symbol record.
    TrailingBytes,
}

#[derive(Clone, Copy, Debug, PartialEq, Eq, Structural)]
pub enum SectionType {
    Task,
    SubChunk,
    Sound,
    Animation,
    Count,
}

/// The section kind that a wire byte stands for.
pub open spec fn section_type_of(b: u8) -> Option<SectionType> {
    if b == 0 {
        Some(SectionType::Task)
    } else if b == 1 {
        Some(SectionType::SubChunk)
    } else if b == 2 {
        Some(SectionType::Sound)
    } else if b == 3 {
        Some(SectionType::Animation)
    } else if b == 4 {
        Some(SectionType::Count)
    } else {
        None
    }
}

/// What a section kind byte at the start of `i` gives.
pub open spec fn section_type_at(i: Seq<u8>) -> Result<SectionType, ParseError> {
    if i.len() == 0 {
        Err(ParseError::Truncated)
    } else {
        match section_type_of(i[0]) {
            Some(t) => Ok(t),
            None => Err(ParseError::UnknownSectionKind),
        }
    }
}

impl SectionType {
    /// Reads the kind byte at the start of `i`.
    pub fn parse(i: &[u8]) -> (r: Result<SectionType, ParseError>)
        ensures
            r == section_type_at(i@),
    {
        if i.len() == 0 {
            return Err(ParseError::Truncated);
        }
        match i[0] {
            0 => Ok(SectionType::Task),
            1 => Ok(SectionType::SubChunk),
            2 => Ok(SectionType::Sound),
            3 => Ok(SectionType::Animation),
            4 => Ok(SectionType::Count),
            _ => Err(ParseError::UnknownSectionKind),
        }
    }
}

pub struct SectionView {
    pub ty: SectionType,
    pub number: u8,
    pub length: u16,
    pub data: Seq<u8>,
}

#[derive(Clone, Debug, PartialEq, Eq)]
pub struct Section {
    pub ty: SectionType,
    pub number: u8,
    pub length: u16,
    pub data: Vec<u8>,
}

impl View for Section {
    type V = SectionView;

    open spec fn view(&self) -> SectionView {
        SectionView { ty: self.ty, number: self.number, length: self.length, data: self.data@ }
    }
}

/// The little-endian 16-bit value at `p`.
pub open spec fn u16_le(s: Seq<u8>, p: int) -> u16 {
    (s[p] as int + 256 * s[p + 1] as int) as u16
}

/// The section record at `p`, and where the next record starts.
pub open spec fn decode_section(s: Seq<u8>, p: int) -> Result<(SectionView, int), ParseError> {
    match section_type_at(s.subrange(p, s.len() as int)) {
        Err(e) => Err(e),
        Ok(ty) => if p + 4 > s.len() {
            Err(ParseError::Truncated)
        } else {
            let length = u16_le(s, p + 2);
            let end = p + 4 + length;
            if end > s.len() {
                Err(ParseError::Truncated)
            } else {
                Ok((SectionView { ty, number: s[p + 1], length, data: s.subrange(p + 4, end) }, end))
            }
        },
    }
}

/// The first `n` section records from `p` on, and where the next record starts.
pub open spec fn decode_sections(s: Seq<u8>, p: int, n: nat) -> Result<(Seq<SectionView>, int), ParseError>
    decreases n,
{
    if n == 0 {
        Ok((Seq::empty(), p))
    } else {
        match decode_sections(s, p, (n - 1) as nat) {
            Err(e) => Err(e),
            Ok((v, q)) => match decode_section(s, q) {
                Err(e) => Err(e),
                Ok((x, r)) => Ok((v.push(x), r)),
            },
        }
    }
}

/// Once a record fails to decode, every longer run of records fails the same way.
proof fn lemma_sections_error_stays(s: Seq<u8>, p: int, k: nat, n: nat)
    requires
        decode_sections(s, p, k) is Err,
        k <= n,
    ensures
        decode_sections(s, p, n) == decode_sections(s, p, k),
    decreases n - k,
{
    if k < n {
        lemma_sections_error_stays(s, p, k, (n - 1) as nat);
    }
}

fn read_u16_le(bin: &[u8], p: usize) -> (r: u16)
    requires
        p + 2 <= bin@.len(),
    ensures
        r == u16_le(bin@, p as int),
{
    bin[p] as u16 + 256 * (bin[p + 1] as u16)
}

/// A copy of `bin[start..end]`.
fn copy_bytes(bin: &[u8], start: usize, end: usize) -> (r: Vec<u8>)
    requires
        start <= end <= bin@.len(),
    ensures
        r@ == bin@.subrange(start as int, end as int),
{
    let mut r: Vec<u8> = Vec::new();
    let mut i: usize = start;
    while i < end
        invariant
            start <= i <= end <= bin@.len(),
            r@ == bin@.subrange(start as int, i as int),
        decreases end - i,
    {
        r.push(bin[i]);
        i += 1;
        assert(r@ =~= bin@.subrange(start as int, i as int));
    }
    r
}

/// Reads the section record at `p`.
fn parse_chunk(bin: &[u8], p: usize) -> (r: Result<(Section, usize), ParseError>)
    requires
        p <= bin@.len(),
    ensures
        match r {
            Ok((sec, q)) => decode_section(bin@, p as int) == Ok::<(SectionView, int), ParseError>((sec@, q as int)) && q <= bin@.len(),
            Err(e) => decode_section(bin@, p as int) == Err::<(SectionView, int), ParseError>(e),
        },
{
    let ty = match SectionType::parse(&bin[p..bin.len()]) {
        Ok(t) => t,
        Err(e) => return Err(e),
    };
    if bin.len() - p < 4 {
        return Err(ParseError::Truncated);
    }
    let number = bin[p + 1];
    let length = read_u16_le(bin, p + 2);
    if bin.len() - (p + 4) < length as usize {
        return Err(ParseError::Truncated);
    }
    let end = p + 4 + length as usize;
    let data = copy_bytes(bin, p + 4, end);
    Ok((Section { ty, number, length, data }, end))
}

pub struct SymbolView {
    pub ty: u8,
    pub index: u8,
    pub length: u16,
    pub name: Seq<u8>,
}

/// A symbol; `name` holds the name without its terminating zero byte.
#[derive(Clone, Debug, PartialEq, Eq)]
pub struct Symbol {
    pub ty: u8,
    pub index: u8,
    pub length: u16,
    pub name: Vec<u8>,
}

impl View for Symbol {
    type V = SymbolView;

    open spec fn view(&self) -> SymbolView {
        SymbolView { ty: self.ty, index: self.index, length: self.length, name: self.name@ }
    }
}

/// `b` ends in a zero byte and holds no other.
pub open spec fn nul_terminated(b: Seq<u8>) -> bool {
    &&& b.len() >= 1
    &&& b.last() == 0
    &&& forall|i: int| 0 <= i < b.len() - 1 ==> b[i] != 0
}

/// The symbol record at `p`, and where the next record starts.
pub open spec fn decode_symbol(s: Seq<u8>, p: int) -> Result<(SymbolView, int), ParseError> {
    if p + 4 > s.len() {
        Err(ParseError::Truncated)
    } else {
        let length = u16_le(s, p + 2);
        let end = p + 4 + length;
        if end > s.len() {
            Err(ParseError::Truncated)
        } else if !nul_terminated(s.subrange(p + 4, end)) {
            Err(ParseError::NameNotTerminated)
        } else {
            Ok((SymbolView { ty: s[p], index: s[p + 1], length, name: s.subrange(p + 4, end - 1) }, end))
        }
    }
}

/// The first `n` symbol records from `p` on, and where the next record starts.
pub open spec fn decode_symbols(s: Seq<u8>, p: int, n: nat) -> Result<(Seq<SymbolView>, int), ParseError>
    decreases n,
{
    if n == 0 {
        Ok((Seq::empty(), p))
    } else {
        match decode_symbols(s, p, (n - 1) as nat) {
            Err(e) => Err(e),
            Ok((v, q)) => match decode_symbol(s, q) {
                Err(e) => Err(e),
                Ok((x, r)) => Ok((v.push(x), r)),
            },
        }
    }
}

proof fn lemma_symbols_error_stays(s: Seq<u8>, p: int, k: nat, n: nat)
    requires
        decode_symbols(s, p, k) is Err,
        k <= n,
    ensures
        decode_symbols(s, p, n) == decode_symbols(s, p, k),
    decreases n - k,
{
    if k < n {
        lemma_symbols_error_stays(s, p, k, (n - 1) as nat);
    }
}

/// Reads the symbol record at `p`.
fn parse_symbol(bin: &[u8], p: usize) -> (r: Result<(Symbol, usize), ParseError>)
    requires
        p <= bin@.len(),
    ensures
        match r {
            Ok((sym, q)) => decode_symbol(bin@, p as int) == Ok::<(SymbolView, int), ParseError>((sym@, q as int)) && q <= bin@.len(),
            Err(e) => decode_symbol(bin@, p as int) == Err::<(SymbolView, int), ParseError>(e),
        },
{
    if bin.len() - p < 4 {
        return Err(ParseError::Truncated);
    }
    let ty = bin[p];
    let index = bin[p + 1];
    let length = read_u16_le(bin, p + 2);
    if bin.len() - (p + 4) < length as usize {
        return Err(ParseError::Truncated);
    }
    let start = p + 4;
    let end = start + length as usize;
    let ghost raw = bin@.subrange(start as int, end as int);
    proof {
        if length > 0 {
            assert(raw.last() == bin@[end - 1]);
        }
    }
    if length == 0 || bin[end - 1] != 0 {
        assert(!nul_terminated(raw));
        return Err(ParseError::NameNotTerminated);
    }
    let mut i: usize = start;
    while i < end - 1
        invariant
            start <= i <= end - 1,
            start == p + 4,
            end == start + length,
            length == u16_le(bin@, p + 2),
            end <= bin@.len(),
            raw == bin@.subrange(start as int, end as int),
            forall|j: int| 0 <= j < i - start ==> raw[j] != 0,
        decreases end - i,
    {
        if bin[i] == 0 {
            assert(raw[i - start] == 0);
            return Err(ParseError::NameNotTerminated);
        }
        i += 1;
    }
    let name = copy_bytes(bin, start, end - 1);
    Ok((Symbol { ty, index, length, name }, end))
}

pub struct RcxBinView {
    pub signature: Seq<u8>,
    pub version: u16,
    pub section_count: u16,
    pub symbol_count: u16,
    pub target_type: u8,
    pub reserved: u8,
    pub sections: Seq<SectionView>,
    pub symbols: Seq<SymbolView>,
}

/// A program image: header fields, sections in file order, symbols.
#[derive(Clone, Debug, PartialEq, Eq)]
pub struct RcxBin {
    pub signature: [u8; 4],
    pub version: u16,
    pub section_count: u16,
    pub symbol_count: u16,
    pub target_type: u8,
    pub reserved: u8,
    pub sections: Vec<Section>,
    pub symbols: Vec<Symbol>,
}

pub open spec fn sections_view(v: Seq<Section>) -> Seq<SectionView> {
    v.map_values(|x: Section| x@)
}

pub open spec fn symbols_view(v: Seq<Symbol>) -> Seq<SymbolView> {
    v.map_values(|x: Symbol| x@)
}

impl View for RcxBin {
    type V = RcxBinView;

    open spec fn view(&self) -> RcxBinView {
        RcxBinView {
            signature: self.signature@,
            version: self.version,
            section_count: self.section_count,
            symbol_count: self.symbol_count,
            target_type: self.target_type,
            reserved: self.reserved,
            sections: sections_view(self.sections@),
            symbols: symbols_view(self.symbols@),
        }
    }
}

/// The bytes of `RCXI`.
pub open spec fn rcx_tag() -> Seq<u8> {
    seq![0x52u8, 0x43u8, 0x58u8, 0x49u8]
}

pub open spec fn has_signature(s: Seq<u8>) -> bool {
    s.len() >= 4 && s.subrange(0, 4) == rcx_tag()
}

/// The structure that `s` encodes, before any check of its invariants. Every
/// byte belongs to exactly one field: bytes after the last symbol are refused.
pub open spec fn decode_image(s: Seq<u8>) -> Result<RcxBinView, ParseError> {
    if !has_signature(s) {
        Err(ParseError::BadSignature)
    } else if s.len() < HEADER_LEN {
        Err(ParseError::Truncated)
    } else {
        let section_count = u16_le(s, 6);
        let symbol_count = u16_le(s, 8);
        match decode_sections(s, HEADER_LEN as int, section_count as nat) {
            Err(e) => Err(e),
            Ok((sections, q)) => match decode_symbols(s, q, symbol_count as nat) {
                Err(e) => Err(e),
                Ok((symbols, r)) => if r != s.len() {
                    Err(ParseError::TrailingBytes)
                } else {
                    Ok(
                    RcxBinView {
                        signature: s.subrange(0, 4),
                        version: u16_le(s, 4),
                        section_count,
                        symbol_count,
                        target_type: s[10],
                        reserved: s[11],
                        sections,
                        symbols,
                    },
                )
                },
            },
        }
    }
}

/// Two sections share a number.
pub open spec fn has_duplicate_numbers(secs: Seq<SectionView>) -> bool {
    exists|i: int, j: int| 0 <= i < j < secs.len() && secs[i].number == secs[j].number
}

/// The invariants of an image: declared counts hold, at most `MAX_SECTIONS`
/// sections, section numbers distinct.
pub open spec fn verify_image(m: RcxBinView) -> Result<(), ParseError> {
    if m.section_count != m.sections.len() || m.symbol_count != m.symbols.len() {
        Err(ParseError::CountMismatch)
    } else if m.sections.len() > MAX_SECTIONS {
        Err(ParseError::TooManySections)
    } else if has_duplicate_numbers(m.sections) {
        Err(ParseError::DuplicateSectionNumber)
    } else {
        Ok(())
    }
}

/// The image that `s` holds, or why it holds none.
pub open spec fn parse_image(s: Seq<u8>) -> Result<RcxBinView, ParseError> {
    match decode_image(s) {
        Err(e) => Err(e),
        Ok(m) => match verify_image(m) {
            Err(e) => Err(e),
            Ok(_) => Ok(m),
        },
    }
}

pub open spec fn image_result_view(r: Result<RcxBin, ParseError>) -> Result<RcxBinView, ParseError> {
    match r {
        Ok(b) => Ok(b@),
        Err(e) => Err(e),
    }
}

/// A successful decode of `n` section records yields exactly `n` sections.
proof fn lemma_decode_sections_len(s: Seq<u8>, p: int, n: nat)
    requires
        decode_sections(s, p, n) is Ok,
    ensures
        decode_sections(s, p, n)->Ok_0.0.len() == n,
    decreases n,
{
    if n > 0 {
        lemma_decode_sections_len(s, p, (n - 1) as nat);
    }
}

/// A successful decode of `n` symbol records yields exactly `n` symbols.
proof fn lemma_decode_symbols_len(s: Seq<u8>, p: int, n: nat)
    requires
        decode_symbols(s, p, n) is Ok,
    ensures
        decode_symbols(s, p, n)->Ok_0.0.len() == n,
    decreases n,
{
    if n > 0 {
        lemma_decode_symbols_len(s, p, (n - 1) as nat);
    }
}

/// A buffer that does not begin with the bytes `RCXI` is refused for its
/// signature, and no image comes of it.
pub proof fn lemma_bad_signature_rejected(s: Seq<u8>)
    requires
        !has_signature(s),
    ensures
        parse_image(s) == Err::<RcxBinView, ParseError>(ParseError::BadSignature),
{
}

/// Decoding yields as many sections and symbols as the header declares, so
/// a parsed image always has matching counts.
pub proof fn lemma_parsed_counts_match(s: Seq<u8>)
    requires
        decode_image(s) is Ok,
    ensures
        decode_image(s)->Ok_0.sections.len() == decode_image(s)->Ok_0.section_count,
        decode_image(s)->Ok_0.symbols.len() == decode_image(s)->Ok_0.symbol_count,
        parse_image(s) is Ok ==> parse_image(s)->Ok_0.sections.len() == parse_image(s)->Ok_0.section_count
            && parse_image(s)->Ok_0.symbols.len() == parse_image(s)->Ok_0.symbol_count,
{
    let section_count = u16_le(s, 6);
    let symbol_count = u16_le(s, 8);
    lemma_decode_sections_len(s, HEADER_LEN as int, section_count as nat);
    let q = decode_sections(s, HEADER_LEN as int, section_count as nat)->Ok_0.1;
    lemma_decode_symbols_len(s, q, symbol_count as nat);
}

/// An image whose declared counts differ from its records fails verification.
pub proof fn lemma_count_mismatch_rejected(m: RcxBinView)
    requires
        m.section_count != m.sections.len() || m.symbol_count != m.symbols.len(),
    ensures
        verify_image(m) == Err::<(), ParseError>(ParseError::CountMismatch),
{
}

/// A well-formed buffer with more than `MAX_SECTIONS` sections is refused.
pub proof fn lemma_too_many_sections_rejected(s: Seq<u8>)
    requires
        decode_image(s) is Ok,
        decode_image(s)->Ok_0.sections.len() > MAX_SECTIONS,
    ensures
        parse_image(s) == Err::<RcxBinView, ParseError>(ParseError::TooManySections),
{
    lemma_parsed_counts_match(s);
}

/// A buffer with two sections of the same number is refused.
pub proof fn lemma_duplicate_numbers_rejected(s: Seq<u8>)
    requires
        decode_image(s) is Ok,
        has_duplicate_numbers(decode_image(s)->Ok_0.sections),
    ensures
        parse_image(s) is Err,
        decode_image(s)->Ok_0.sections.len() <= MAX_SECTIONS ==> parse_image(s) == Err::<RcxBinView, ParseError>(
            ParseError::DuplicateSectionNumber,
        ),
{
    lemma_parsed_counts_match(s);
}

/// Decodes the structure of `bin`, without the invariant checks.
fn parse(bin: &[u8]) -> (r: Result<RcxBin, ParseError>)
    ensures
        image_result_view(r) == decode_image(bin@),
{
    if bin.len() < 4 || bin[0] != 0x52 || bin[1] != 0x43 || bin[2] != 0x58 || bin[3] != 0x49 {
        proof {
            if bin@.len() >= 4 {
                assert(bin@.subrange(0, 4) != rcx_tag()) by {
                    if bin@.subrange(0, 4) == rcx_tag() {
                        assert(bin@.subrange(0, 4)[0] == bin@[0]);
                        assert(bin@.subrange(0, 4)[1] == bin@[1]);
                        assert(bin@.subrange(0, 4)[2] == bin@[2]);
                        assert(bin@.subrange(0, 4)[3] == bin@[3]);
                    }
                }
            }
        }
        return Err(ParseError::BadSignature);
    }
    assert(bin@.subrange(0, 4) =~= rcx_tag());
    if bin.len() < HEADER_LEN {
        return Err(ParseError::Truncated);
    }
    let version = read_u16_le(bin, 4);
    let section_count = read_u16_le(bin, 6);
    let symbol_count = read_u16_le(bin, 8);
    let target_type = bin[10];
    let reserved = bin[11];

    let mut sections: Vec<Section> = Vec::new();
    let mut pos: usize = HEADER_LEN;
    let mut i: u16 = 0;
    assert(sections_view(sections@) =~= Seq::<SectionView>::empty());
    while i < section_count
        invariant
            i <= section_count,
            has_signature(bin@),
            bin@.len() >= HEADER_LEN,
            section_count == u16_le(bin@, 6),
            pos <= bin@.len(),
            decode_sections(bin@, HEADER_LEN as int, i as nat) == Ok::<(Seq<SectionView>, int), ParseError>(
                (sections_view(sections@), pos as int),
            ),
        decreases section_count - i,
    {
        match parse_chunk(bin, pos) {
            Ok((sec, q)) => {
                let ghost before = sections_view(sections@);
                sections.push(sec);
                assert(sections_view(sections@) =~= before.push(sec@));
                pos = q;
                i += 1;
            },
            Err(e) => {
                proof {
                    assert(decode_sections(bin@, HEADER_LEN as int, (i + 1) as nat) == Err::<(Seq<SectionView>, int), ParseError>(e));
                    lemma_sections_error_stays(bin@, HEADER_LEN as int, (i + 1) as nat, section_count as nat);

                }
                return Err(e);
            },
        }
    }
    let ghost sym_start = pos as int;
    let mut symbols: Vec<Symbol> = Vec::new();
    let mut j: u16 = 0;
    assert(symbols_view(symbols@) =~= Seq::<SymbolView>::empty());
    while j < symbol_count
        invariant
            j <= symbol_count,
            has_signature(bin@),
            bin@.len() >= HEADER_LEN,
            section_count == u16_le(bin@, 6),
            symbol_count == u16_le(bin@, 8),
            decode_sections(bin@, HEADER_LEN as int, section_count as nat) == Ok::<(Seq<SectionView>, int), ParseError>(
                (sections_view(sections@), sym_start),
            ),
            pos <= bin@.len(),
            decode_symbols(bin@, sym_start, j as nat) == Ok::<(Seq<SymbolView>, int), ParseError>(
                (symbols_view(symbols@), pos as int),
            ),
        decreases symbol_count - j,
    {
        match parse_symbol(bin, pos) {
            Ok((sym, q)) => {
                let ghost before = symbols_view(symbols@);
                symbols.push(sym);
                assert(symbols_view(symbols@) =~= before.push(sym@));
                pos = q;
                j += 1;
            },
            Err(e) => {
                proof {
                    assert(decode_symbols(bin@, sym_start, (j + 1) as nat) == Err::<(Seq<SymbolView>, int), ParseError>(e));
                    lemma_symbols_error_stays(bin@, sym_start, (j + 1) as nat, symbol_count as nat);
                }
                return Err(e);
            },
        }
    }
    if pos != bin.len() {
        return Err(ParseError::TrailingBytes);
    }
    let r = RcxBin {
        signature: [bin[0], bin[1], bin[2], bin[3]],
        version,
        section_count,
        symbol_count,
        target_type,
        reserved,
        sections,
        symbols,
    };
    assert(r.signature@ =~= bin@.subrange(0, 4));
    Ok(r)
}

/// Whether two of `sections` share a number.
fn repeated_idx(sections: &Vec<Section>) -> (r: bool)
    ensures
        r == has_duplicate_numbers(sections_view(sections@)),
{
    let ghost v = sections_view(sections@);
    let n = sections.len();
    let mut i: usize = 0;
    while i < n
        invariant
            n == sections@.len(),
            v == sections_view(sections@),
            i <= n,
            forall|a: int, b: int| 0 <= a < b < n && a < i ==> v[a].number != v[b].number,
        decreases n - i,
    {
        let mut j: usize = i + 1;
        while j < n
            invariant
                n == sections@.len(),
                v == sections_view(sections@),
                i < n,
                i + 1 <= j <= n,
                forall|a: int, b: int| 0 <= a < b < n && a < i ==> v[a].number != v[b].number,
                forall|b: int| i < b < j ==> v[i as int].number != v[b].number,
            decreases n - j,
        {
            if sections[i].number == sections[j].number {
                assert(v[i as int].number == v[j as int].number);
                return true;
            }
            j += 1;
        }
        i += 1;
    }
    false
}

impl RcxBin {
    /// Reads a program image from `bin` and checks its invariants.
    pub fn parse(bin: &[u8]) -> (r: Result<RcxBin, ParseError>)
        ensures
            image_result_view(r) == parse_image(bin@),
    {
        let bin = parse(bin)?;
        bin.verify()?;
        Ok(bin)
    }

    /// Checks the invariants of the image: declared counts, the section
    /// ceiling, distinct section numbers.
    pub fn verify(&self) -> (r: Result<(), ParseError>)
        ensures
            r == verify_image(self@),
    {
        if self.section_count as usize != self.sections.len() || self.symbol_count as usize != self.symbols.len() {
            Err(ParseError::CountMismatch)
        } else if self.sections.len() > MAX_SECTIONS {
            Err(ParseError::TooManySections)
        } else if repeated_idx(&self.sections) {
            Err(ParseError::DuplicateSectionNumber)
        } else {
            Ok(())
        }
    }
}

} // verus!
