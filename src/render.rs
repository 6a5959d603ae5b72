//! The human-readable dump of a program image.
use vstd::prelude::*;
use vstd::string::StringExecFns;
use crate::binfmt::{
    RcxBin, RcxBinView, Section, SectionType, SectionView, Symbol, SymbolView, sections_view, symbols_view,
};

verus! {

/// The digit characters, lowest first.
pub open spec fn digit_char(d: int) -> char {
    seq!['0', '1', '2', '3', '4', '5', '6', '7', '8', '9', 'a', 'b', 'c', 'd', 'e', 'f'][d]
}

/// `n` in decimal, without leading zeros.
pub open spec fn decimal_of(n: nat) -> Seq<char>
    decreases n,
{
    if n < 10 {
        seq![digit_char(n as int)]
    } else {
        decimal_of(n / 10).push(digit_char((n % 10) as int))
    }
}

/// `n` in lowercase hexadecimal, without leading zeros.
pub open spec fn hex_digits_of(n: nat) -> Seq<char>
    decreases n,
{
    if n < 16 {
        seq![digit_char(n as int)]
    } else {
        hex_digits_of(n / 16).push(digit_char((n % 16) as int))
    }
}

/// Two lowercase hex digits for each byte of `b`, high nibble first.
pub open spec fn hex_of(b: Seq<u8>) -> Seq<char>
    decreases b.len(),
{
    if b.len() == 0 {
        Seq::empty()
    } else {
        hex_of(b.drop_last()) + seq![digit_char(b.last() as int / 16), digit_char(b.last() as int % 16)]
    }
}

/// The bytes of `b` as ASCII text, with `\`, quotes and bytes that are not
/// printable written as escapes.
pub uninterp spec fn escaped_ascii(b: Seq<u8>) -> Seq<char>;

/// Relies on `hex::encode`: two lowercase hex digits per byte, high nibble first.
#[verifier::external_body]
fn hex_text(b: &[u8]) -> (r: String)
    ensures
        r@ == hex_of(b@),
{
    hex::encode(b)
}

/// Relies on `u16`'s `Display`, through `to_string`: decimal digits, no leading zeros.
#[verifier::external_body]
fn decimal_text(n: u16) -> (r: String)
    ensures
        r@ == decimal_of(n as nat),
{
    n.to_string()
}

/// Relies on `u16`'s `LowerHex`, through `format!`: lowercase hex digits, no leading zeros.
#[verifier::external_body]
fn lower_hex_text(n: u16) -> (r: String)
    ensures
        r@ == hex_digits_of(n as nat),
{
    format!("{:x}", n)
}

/// Relies on `<[u8]>::escape_ascii`: the text depends on the bytes alone.
#[verifier::external_body]
fn escape_text(b: &[u8]) -> (r: String)
    ensures
        r@ == escaped_ascii(b@),
{
    b.escape_ascii().to_string()
}

pub open spec fn kind_text(t: SectionType) -> Seq<char> {
    match t {
        SectionType::Task => "Task"@,
        SectionType::SubChunk => "SubChunk"@,
        SectionType::Sound => "Sound"@,
        SectionType::Animation => "Animation"@,
        SectionType::Count => "Count"@,
    }
}

/// Two lines: kind and length, then the payload in hex.
pub open spec fn section_text(s: SectionView) -> Seq<char> {
    "  "@ + kind_text(s.ty) + " - "@ + decimal_of(s.length as nat) + " bytes\n"@ + "    "@ + hex_of(s.data) + "\n"@
}

/// Two lines: kind, index and length, then the quoted name.
pub open spec fn symbol_text(y: SymbolView) -> Seq<char> {
    "  "@ + decimal_of(y.ty as nat) + " at "@ + decimal_of(y.index as nat) + " - "@ + decimal_of(y.length as nat)
        + " bytes\n"@ + "    \""@ + escaped_ascii(y.name) + "\"\n"@
}

pub open spec fn sections_text(v: Seq<SectionView>) -> Seq<char>
    decreases v.len(),
{
    if v.len() == 0 {
        Seq::empty()
    } else {
        sections_text(v.drop_last()) + section_text(v.last()) + "\n"@
    }
}

pub open spec fn symbols_text(v: Seq<SymbolView>) -> Seq<char>
    decreases v.len(),
{
    if v.len() == 0 {
        Seq::empty()
    } else {
        symbols_text(v.drop_last()) + symbol_text(v.last()) + "\n"@
    }
}

/// The dump of an image: header fields, then each section, then each symbol.
pub open spec fn image_text(m: RcxBinView) -> Seq<char> {
    "Signature: "@ + escaped_ascii(m.signature) + "\n"@ + "Version: "@ + hex_digits_of(m.version as nat) + "\n"@
        + decimal_of(m.section_count as nat) + " sections, "@ + decimal_of(m.symbol_count as nat) + " symbols\n"@
        + "Target: "@ + decimal_of(m.target_type as nat) + "\n"@ + "Sections:\n"@ + sections_text(m.sections)
        + "Symbols:\n"@ + symbols_text(m.symbols)
}

impl SectionType {
    /// The kind's name.
    pub fn name(&self) -> (r: &'static str)
        ensures
            r@ == kind_text(*self),
    {
        match self {
            SectionType::Task => "Task",
            SectionType::SubChunk => "SubChunk",
            SectionType::Sound => "Sound",
            SectionType::Animation => "Animation",
            SectionType::Count => "Count",
        }
    }
}

impl Section {
    pub fn to_string(&self) -> (r: String)
        ensures
            r@ == section_text(self@),
    {
        let mut s = String::new();
        s.append("  ");
        s.append(self.ty.name());
        s.append(" - ");
        s.append(decimal_text(self.length).as_str());
        s.append(" bytes\n");
        s.append("    ");
        s.append(hex_text(self.data.as_slice()).as_str());
        s.append("\n");
        s
    }
}

impl Symbol {
    pub fn to_string(&self) -> (r: String)
        ensures
            r@ == symbol_text(self@),
    {
        let mut s = String::new();
        s.append("  ");
        s.append(decimal_text(self.ty as u16).as_str());
        s.append(" at ");
        s.append(decimal_text(self.index as u16).as_str());
        s.append(" - ");
        s.append(decimal_text(self.length).as_str());
        s.append(" bytes\n");
        s.append("    \"");
        s.append(escape_text(self.name.as_slice()).as_str());
        s.append("\"\n");
        s
    }
}

impl RcxBin {
    pub fn to_string(&self) -> (r: String)
        ensures
            r@ == image_text(self@),
    {
        let mut s = String::new();
        s.append("Signature: ");
        s.append(escape_text(self.signature.as_slice()).as_str());
        s.append("\n");
        s.append("Version: ");
        s.append(lower_hex_text(self.version).as_str());
        s.append("\n");
        s.append(decimal_text(self.section_count).as_str());
        s.append(" sections, ");
        s.append(decimal_text(self.symbol_count).as_str());
        s.append(" symbols\n");
        s.append("Target: ");
        s.append(decimal_text(self.target_type as u16).as_str());
        s.append("\n");
        s.append("Sections:\n");
        let ghost head = s@;
        let ghost secs = sections_view(self.sections@);
        let mut i: usize = 0;
        while i < self.sections.len()
            invariant
                i <= self.sections@.len(),
                secs == sections_view(self.sections@),
                s@ == head + sections_text(secs.take(i as int)),
            decreases self.sections@.len() - i,
        {
            proof {
                let t = secs.take(i as int + 1);
                assert(t.drop_last() =~= secs.take(i as int));
                assert(t.last() == self.sections@[i as int]@);
            }
            s.append(self.sections[i].to_string().as_str());
            s.append("\n");
            i += 1;
        }
        assert(secs.take(i as int) =~= secs);
        s.append("Symbols:\n");
        let ghost head = s@;
        let ghost syms = symbols_view(self.symbols@);
        let mut j: usize = 0;
        while j < self.symbols.len()
            invariant
                j <= self.symbols@.len(),
                syms == symbols_view(self.symbols@),
                s@ == head + symbols_text(syms.take(j as int)),
            decreases self.symbols@.len() - j,
        {
            proof {
                let t = syms.take(j as int + 1);
                assert(t.drop_last() =~= syms.take(j as int));
                assert(t.last() == self.symbols@[j as int]@);
            }
            s.append(self.symbols[j].to_string().as_str());
            s.append("\n");
            j += 1;
        }
        assert(syms.take(j as int) =~= syms);
        s
    }
}

} // verus!
