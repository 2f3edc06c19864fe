//! The metadata header of a GGUF file: enough of it to tell a LoRA
//! adapter from a base model and to read the model's architecture.
//!
//! The parser works on the first bytes of the file and the file's length.
//! When it needs bytes past those it has, it says how many
//! (`GgufError::Incomplete`) and the caller reads more and parses again.

use vstd::prelude::*;
use crate::resource::model::opt_view;

verus! {

/// Files above 16 GiB are refused.
pub const MAX_ADAPTER_BYTES: u64 = 17179869184;
pub const MAX_GGUF_METADATA_ENTRIES: u64 = 100000;
pub const MAX_GGUF_STRING_BYTES: u64 = 1048576;
pub const MAX_GGUF_ARRAY_ITEMS: u64 = 2000000;

/// Why a GGUF header is refused.
#[derive(Clone, Debug, PartialEq, Eq)]
pub enum GgufError {
    /// The parse needs the file's first bytes up to this length.
    Incomplete(u64),
    TooLarge,
    UnexpectedEof,
    NotGguf,
    UnsupportedVersion(u32),
    TooManyEntries,
    StringTooLong,
    Truncated,
    InvalidUtf8,
    KeyNotString(String),
    ArrayNesting,
    ArrayTooLarge,
    ArraySizeOverflow,
    UnsupportedValueType(u32),
    BaseIsAdapter,
    NotLoraAdapter,
}

/// What the header says about the file.
#[derive(Debug, PartialEq, Eq)]
pub struct GgufAdapterMetadata {
    pub general_type: Option<String>,
    pub adapter_type: Option<String>,
    pub architecture: Option<String>,
}

pub struct MetadataView {
    pub general_type: Option<Seq<char>>,
    pub adapter_type: Option<Seq<char>>,
    pub architecture: Option<Seq<char>>,
}

impl View for GgufAdapterMetadata {
    type V = MetadataView;

    open spec fn view(&self) -> MetadataView {
        MetadataView {
            general_type: opt_view(self.general_type),
            adapter_type: opt_view(self.adapter_type),
            architecture: opt_view(self.architecture),
        }
    }
}

pub enum ErrorView {
    Incomplete(u64),
    TooLarge,
    UnexpectedEof,
    NotGguf,
    UnsupportedVersion(u32),
    TooManyEntries,
    StringTooLong,
    Truncated,
    InvalidUtf8,
    KeyNotString(Seq<char>),
    ArrayNesting,
    ArrayTooLarge,
    ArraySizeOverflow,
    UnsupportedValueType(u32),
    BaseIsAdapter,
    NotLoraAdapter,
}

impl View for GgufError {
    type V = ErrorView;

    open spec fn view(&self) -> ErrorView {
        match self {
            GgufError::Incomplete(n) => ErrorView::Incomplete(*n),
            GgufError::TooLarge => ErrorView::TooLarge,
            GgufError::UnexpectedEof => ErrorView::UnexpectedEof,
            GgufError::NotGguf => ErrorView::NotGguf,
            GgufError::UnsupportedVersion(v) => ErrorView::UnsupportedVersion(*v),
            GgufError::TooManyEntries => ErrorView::TooManyEntries,
            GgufError::StringTooLong => ErrorView::StringTooLong,
            GgufError::Truncated => ErrorView::Truncated,
            GgufError::InvalidUtf8 => ErrorView::InvalidUtf8,
            GgufError::KeyNotString(k) => ErrorView::KeyNotString(k@),
            GgufError::ArrayNesting => ErrorView::ArrayNesting,
            GgufError::ArrayTooLarge => ErrorView::ArrayTooLarge,
            GgufError::ArraySizeOverflow => ErrorView::ArraySizeOverflow,
            GgufError::UnsupportedValueType(t) => ErrorView::UnsupportedValueType(*t),
            GgufError::BaseIsAdapter => ErrorView::BaseIsAdapter,
            GgufError::NotLoraAdapter => ErrorView::NotLoraAdapter,
        }
    }
}

/// The message the host shows for a GGUF error.
pub open spec fn error_message(e: ErrorView) -> Seq<char> {
    match e {
        ErrorView::Incomplete(n) => "GGUF metadata needs the first "@ + crate::text::decimal(n as nat) + " bytes"@,
        ErrorView::TooLarge => "adapter exceeds the 16 GiB managed import limit"@,
        ErrorView::UnexpectedEof => "failed to fill whole buffer"@,
        ErrorView::NotGguf => "selected file is not a GGUF file"@,
        ErrorView::UnsupportedVersion(v) => "unsupported GGUF version "@ + crate::text::decimal(v as nat)
            + "; expected version 2 or 3"@,
        ErrorView::TooManyEntries => "GGUF metadata entry count exceeds the safe limit"@,
        ErrorView::StringTooLong => "GGUF metadata string exceeds the safe limit"@,
        ErrorView::Truncated => "GGUF metadata is truncated"@,
        ErrorView::InvalidUtf8 => "GGUF metadata contains invalid UTF-8"@,
        ErrorView::KeyNotString(k) => "GGUF metadata '"@ + k + "' must be a string"@,
        ErrorView::ArrayNesting => "GGUF metadata array nesting is unsupported"@,
        ErrorView::ArrayTooLarge => "GGUF metadata array exceeds the safe limit"@,
        ErrorView::ArraySizeOverflow => "GGUF metadata array size overflow"@,
        ErrorView::UnsupportedValueType(t) => "unsupported GGUF metadata value type "@ + crate::text::decimal(
            t as nat,
        ),
        ErrorView::BaseIsAdapter => "selected LoRA base model is itself an adapter GGUF"@,
        ErrorView::NotLoraAdapter => "GGUF is not a llama.cpp LoRA adapter (expected general.type=adapter and adapter.type=lora)"@,
    }
}

impl GgufError {
    /// The message the host shows for this error.
    pub fn message(&self) -> (r: String)
        ensures
            r@ == error_message(self@),
    {
        match self {
            GgufError::Incomplete(n) => {
                let mut s = crate::text::owned("GGUF metadata needs the first ");
                crate::text::append_chars(&mut s, &crate::text::decimal_string(*n));
                crate::text::append(&mut s, " bytes");
                s
            },
            GgufError::TooLarge => crate::text::owned("adapter exceeds the 16 GiB managed import limit"),
            GgufError::UnexpectedEof => crate::text::owned("failed to fill whole buffer"),
            GgufError::NotGguf => crate::text::owned("selected file is not a GGUF file"),
            GgufError::UnsupportedVersion(v) => {
                let mut s = crate::text::owned("unsupported GGUF version ");
                crate::text::append_chars(&mut s, &crate::text::decimal_string(*v as u64));
                crate::text::append(&mut s, "; expected version 2 or 3");
                s
            },
            GgufError::TooManyEntries => crate::text::owned("GGUF metadata entry count exceeds the safe limit"),
            GgufError::StringTooLong => crate::text::owned("GGUF metadata string exceeds the safe limit"),
            GgufError::Truncated => crate::text::owned("GGUF metadata is truncated"),
            GgufError::InvalidUtf8 => crate::text::owned("GGUF metadata contains invalid UTF-8"),
            GgufError::KeyNotString(k) => {
                let mut s = crate::text::owned("GGUF metadata '");
                crate::text::append(&mut s, k.as_str());
                crate::text::append(&mut s, "' must be a string");
                s
            },
            GgufError::ArrayNesting => crate::text::owned("GGUF metadata array nesting is unsupported"),
            GgufError::ArrayTooLarge => crate::text::owned("GGUF metadata array exceeds the safe limit"),
            GgufError::ArraySizeOverflow => crate::text::owned("GGUF metadata array size overflow"),
            GgufError::UnsupportedValueType(t) => {
                let mut s = crate::text::owned("unsupported GGUF metadata value type ");
                crate::text::append_chars(&mut s, &crate::text::decimal_string(*t as u64));
                s
            },
            GgufError::BaseIsAdapter => crate::text::owned("selected LoRA base model is itself an adapter GGUF"),
            GgufError::NotLoraAdapter => crate::text::owned(
                "GGUF is not a llama.cpp LoRA adapter (expected general.type=adapter and adapter.type=lora)",
            ),
        }
    }
}

/// The text `bytes` encode as UTF-8, none when they are not valid UTF-8
/// (well-formed, not overlong, no surrogates).
pub open spec fn utf8_text(bytes: Seq<u8>) -> Option<Seq<char>> {
    if vstd::utf8::valid_utf8(bytes) {
        Some(vstd::utf8::decode_utf8(bytes))
    } else {
        None
    }
}

/// Calls `std::str::from_utf8`. Trusted: `std` accepts exactly the valid
/// UTF-8 byte sequences and the text is their decoding.
#[verifier::external_body]
fn decode_utf8(bytes: &[u8]) -> (r: Option<String>)
    ensures
        opt_view(r) == utf8_text(bytes@),
{
    std::str::from_utf8(bytes).ok().map(|s| s.to_string())
}

/// The little-endian number in `d[p..p + n)`.
pub open spec fn le_value(d: Seq<u8>, p: int, n: nat) -> nat
    decreases n,
{
    if n == 0 {
        0
    } else {
        d[p] as nat + 256 * le_value(d, p + 1, (n - 1) as nat)
    }
}

/// A fixed-size read of `n` bytes at `p`: past the end of the file fails,
/// past the bytes at hand asks for more.
pub open spec fn read_fixed(d: Seq<u8>, flen: u64, p: u64, n: nat) -> Result<(nat, u64), ErrorView> {
    if p + n > flen {
        Err(ErrorView::UnexpectedEof)
    } else if p + n > d.len() {
        Err(ErrorView::Incomplete((p + n) as u64))
    } else {
        Ok((le_value(d, p as int, n), (p + n) as u64))
    }
}

/// Skipping `n` bytes at `p`: they must lie within the file.
pub open spec fn seek(flen: u64, p: u64, n: nat) -> Result<u64, ErrorView> {
    if p + n > flen {
        Err(ErrorView::Truncated)
    } else {
        Ok((p + n) as u64)
    }
}

/// A length-prefixed UTF-8 string at `p`.
pub open spec fn read_string(d: Seq<u8>, flen: u64, p: u64) -> Result<(Seq<char>, u64), ErrorView> {
    match read_fixed(d, flen, p, 8) {
        Err(e) => Err(e),
        Ok((len, p1)) => if len > MAX_GGUF_STRING_BYTES {
            Err(ErrorView::StringTooLong)
        } else if p1 + len > flen {
            Err(ErrorView::Truncated)
        } else if p1 + len > d.len() {
            Err(ErrorView::Incomplete((p1 + len) as u64))
        } else {
            match utf8_text(d.subrange(p1 as int, p1 + len)) {
                Some(t) => Ok((t, (p1 + len) as u64)),
                None => Err(ErrorView::InvalidUtf8),
            }
        },
    }
}

/// The size of a fixed-size value type, none for strings and arrays.
pub open spec fn fixed_size(t: u32) -> Option<nat> {
    if t == 0 || t == 1 || t == 7 {
        Some(1)
    } else if t == 2 || t == 3 {
        Some(2)
    } else if 4 <= t <= 6 {
        Some(4)
    } else if 10 <= t <= 12 {
        Some(8)
    } else {
        None
    }
}

/// Skip one metadata value of type `t` at `p`, arrays nested at most twice.
pub open spec fn skip_value(d: Seq<u8>, flen: u64, p: u64, t: u32, depth: nat) -> Result<u64, ErrorView>
    decreases 3 - depth, 1nat, 0nat,
{
    if depth > 2 {
        Err(ErrorView::ArrayNesting)
    } else if fixed_size(t) is Some {
        seek(flen, p, fixed_size(t)->0)
    } else if t == 8 {
        match read_string(d, flen, p) {
            Ok((_, p1)) => Ok(p1),
            Err(e) => Err(e),
        }
    } else if t == 9 {
        match read_fixed(d, flen, p, 4) {
            Err(e) => Err(e),
            Ok((et, p1)) => match read_fixed(d, flen, p1, 8) {
                Err(e) => Err(e),
                Ok((count, p2)) => if count > MAX_GGUF_ARRAY_ITEMS {
                    Err(ErrorView::ArrayTooLarge)
                } else {
                    match fixed_size(et as u32) {
                        Some(size) => if count * size > u64::MAX {
                            Err(ErrorView::ArraySizeOverflow)
                        } else {
                            seek(flen, p2, count * size)
                        },
                        None => skip_items(d, flen, p2, et as u32, depth + 1, count),
                    }
                },
            },
        }
    } else {
        Err(ErrorView::UnsupportedValueType(t))
    }
}

/// Skip `count` values of type `t`, one after another.
pub open spec fn skip_items(d: Seq<u8>, flen: u64, p: u64, t: u32, depth: nat, count: nat) -> Result<
    u64,
    ErrorView,
>
    decreases 3 - depth, 2nat, count,
{
    if count == 0 {
        Ok(p)
    } else if depth > 3 {
        Err(ErrorView::ArrayNesting)
    } else {
        match skip_value(d, flen, p, t, depth) {
            Ok(p1) => skip_items(d, flen, p1, t, depth, (count - 1) as nat),
            Err(e) => Err(e),
        }
    }
}

pub open spec fn no_metadata() -> MetadataView {
    MetadataView { general_type: None, adapter_type: None, architecture: None }
}

/// Read `count` key/value entries at `p`, keeping the three keys of
/// interest (a later entry of the same key wins) and skipping the rest.
pub open spec fn read_entries(d: Seq<u8>, flen: u64, p: u64, count: nat, m: MetadataView) -> Result<
    MetadataView,
    ErrorView,
>
    decreases count,
{
    if count == 0 {
        Ok(m)
    } else {
        match read_string(d, flen, p) {
            Err(e) => Err(e),
            Ok((key, p1)) => match read_fixed(d, flen, p1, 4) {
                Err(e) => Err(e),
                Ok((t, p2)) => if key == "general.type"@ || key == "adapter.type"@ || key
                    == "general.architecture"@ {
                    if t != 8 {
                        Err(ErrorView::KeyNotString(key))
                    } else {
                        match read_string(d, flen, p2) {
                            Err(e) => Err(e),
                            Ok((v, p3)) => {
                                let m2 = if key == "general.type"@ {
                                    MetadataView { general_type: Some(v), ..m }
                                } else if key == "adapter.type"@ {
                                    MetadataView { adapter_type: Some(v), ..m }
                                } else {
                                    MetadataView { architecture: Some(v), ..m }
                                };
                                read_entries(d, flen, p3, (count - 1) as nat, m2)
                            },
                        }
                    }
                } else {
                    match skip_value(d, flen, p2, t as u32, 0) {
                        Err(e) => Err(e),
                        Ok(p3) => read_entries(d, flen, p3, (count - 1) as nat, m),
                    }
                },
            },
        }
    }
}

/// The metadata of a GGUF file of length `flen` whose first bytes are `d`.
pub open spec fn gguf_metadata(d: Seq<u8>, flen: u64) -> Result<MetadataView, ErrorView> {
    if flen > MAX_ADAPTER_BYTES {
        Err(ErrorView::TooLarge)
    } else if flen < 4 {
        Err(ErrorView::UnexpectedEof)
    } else if d.len() < 4 {
        Err(ErrorView::Incomplete(4))
    } else if d.subrange(0, 4) != seq![71u8, 71u8, 85u8, 70u8] {
        Err(ErrorView::NotGguf)
    } else {
        match read_fixed(d, flen, 4, 4) {
            Err(e) => Err(e),
            Ok((version, p1)) => if version < 2 || version > 3 {
                Err(ErrorView::UnsupportedVersion(version as u32))
            } else {
                match read_fixed(d, flen, p1, 8) {
                    Err(e) => Err(e),
                    Ok((_, p2)) => match read_fixed(d, flen, p2, 8) {
                        Err(e) => Err(e),
                        Ok((count, p3)) => if count > MAX_GGUF_METADATA_ENTRIES {
                            Err(ErrorView::TooManyEntries)
                        } else {
                            read_entries(d, flen, p3, count, no_metadata())
                        },
                    },
                }
            },
        }
    }
}


pub open spec fn pow256(n: nat) -> nat
    decreases n,
{
    if n == 0 { 1 } else { 256 * pow256((n - 1) as nat) }
}

proof fn lemma_le_value_bound(d: Seq<u8>, p: int, n: nat)
    ensures
        le_value(d, p, n) < pow256(n),
    decreases n,
{
    if n > 0 {
        lemma_le_value_bound(d, p + 1, (n - 1) as nat);
        let x = le_value(d, p + 1, (n - 1) as nat);
        let y = pow256((n - 1) as nat);
        let b = d[p] as nat;
        assert(b + 256 * x < 256 * y) by (nonlinear_arith)
            requires
                b <= 255,
                x < y,
        ;
    }
}

pub open spec fn view_err<T>(r: Result<T, GgufError>) -> Result<T, ErrorView> {
    match r {
        Ok(v) => Ok(v),
        Err(e) => Err(e@),
    }
}

fn read_le(d: &[u8], flen: u64, p: u64, n: u64) -> (r: Result<(u64, u64), GgufError>)
    requires
        n == 4 || n == 8,
        p <= flen <= MAX_ADAPTER_BYTES,
    ensures
        match r {
            Ok((v, q)) => read_fixed(d@, flen, p, n as nat) == Ok::<(nat, u64), ErrorView>((v as nat, q)) && q <= flen,
            Err(e) => read_fixed(d@, flen, p, n as nat) == Err::<(nat, u64), ErrorView>(e@),
        },
{
    if p + n > flen {
        return Err(GgufError::UnexpectedEof);
    }
    if p + n > d.len() as u64 {
        return Err(GgufError::Incomplete(p + n));
    }
    let mut v: u64 = 0;
    let mut k: u64 = n;
    proof {
        lemma_pow256_values();
    }
    while k > 0
        invariant
            k <= n,
            n == 4 || n == 8,
            p <= MAX_ADAPTER_BYTES,
            p + n <= d@.len(),
            v as nat == le_value(d@, p + k, (n - k) as nat),
        decreases k,
    {
        proof {
            lemma_le_value_bound(d@, p + k - 1, (n - k + 1) as nat);
            lemma_pow256_values();
            assert(pow256((n - k + 1) as nat) <= pow256(8)) by {
                lemma_pow256_mono((n - k + 1) as nat, 8);
            }
        }
        let b = d[(p + k - 1) as usize];
        v = b as u64 + 256 * v;
        k = k - 1;
    }
    Ok((v, p + n))
}

proof fn lemma_pow256_values()
    ensures
        pow256(4) == 4294967296,
        pow256(8) == 18446744073709551616,
{
    reveal_with_fuel(pow256, 9);
}

proof fn lemma_pow256_mono(a: nat, b: nat)
    requires
        a <= b,
    ensures
        pow256(a) <= pow256(b),
    decreases b,
{
    if a < b {
        lemma_pow256_mono(a, (b - 1) as nat);
    }
}


fn copy_bytes(d: &[u8], a: usize, b: usize) -> (r: Vec<u8>)
    requires
        a <= b <= d@.len(),
    ensures
        r@ == d@.subrange(a as int, b as int),
{
    let mut r: Vec<u8> = Vec::new();
    let mut j: usize = a;
    while j < b
        invariant
            a <= j <= b <= d@.len(),
            r@ == d@.subrange(a as int, j as int),
        decreases b - j,
    {
        r.push(d[j]);
        j = j + 1;
        assert(r@ =~= d@.subrange(a as int, j as int));
    }
    r
}

fn read_string_exec(d: &[u8], flen: u64, p: u64) -> (r: Result<(String, u64), GgufError>)
    requires
        p <= flen <= MAX_ADAPTER_BYTES,
    ensures
        match r {
            Ok((t, q)) => read_string(d@, flen, p) == Ok::<(Seq<char>, u64), ErrorView>((t@, q)) && q <= flen,
            Err(e) => read_string(d@, flen, p) == Err::<(Seq<char>, u64), ErrorView>(e@),
        },
{
    let (len, p1) = match read_le(d, flen, p, 8) {
        Ok(x) => x,
        Err(e) => return Err(e),
    };
    if len > MAX_GGUF_STRING_BYTES {
        return Err(GgufError::StringTooLong);
    }
    if p1 + len > flen {
        return Err(GgufError::Truncated);
    }
    if p1 + len > d.len() as u64 {
        return Err(GgufError::Incomplete(p1 + len));
    }
    let bytes = copy_bytes(d, p1 as usize, (p1 + len) as usize);
    match decode_utf8(bytes.as_slice()) {
        Some(t) => Ok((t, p1 + len)),
        None => Err(GgufError::InvalidUtf8),
    }
}

fn fixed_size_exec(t: u32) -> (r: Option<u64>)
    ensures
        match r {
            Some(n) => fixed_size(t) == Some(n as nat) && n <= 8,
            None => fixed_size(t) is None,
        },
{
    if t == 0 || t == 1 || t == 7 {
        Some(1)
    } else if t == 2 || t == 3 {
        Some(2)
    } else if 4 <= t && t <= 6 {
        Some(4)
    } else if 10 <= t && t <= 12 {
        Some(8)
    } else {
        None
    }
}

fn seek_exec(flen: u64, p: u64, n: u64) -> (r: Result<u64, GgufError>)
    requires
        p <= flen <= MAX_ADAPTER_BYTES,
        n <= MAX_ADAPTER_BYTES,
    ensures
        match r {
            Ok(q) => seek(flen, p, n as nat) == Ok::<u64, ErrorView>(q) && q <= flen,
            Err(e) => seek(flen, p, n as nat) == Err::<u64, ErrorView>(e@),
        },
{
    if p + n > flen {
        Err(GgufError::Truncated)
    } else {
        Ok(p + n)
    }
}

/// Skip one metadata value of type `t` at `p`.
fn skip_value_exec(d: &[u8], flen: u64, p: u64, t: u32, depth: u64) -> (r: Result<u64, GgufError>)
    requires
        p <= flen <= MAX_ADAPTER_BYTES,
        depth <= 3,
    ensures
        match r {
            Ok(q) => skip_value(d@, flen, p, t, depth as nat) == Ok::<u64, ErrorView>(q) && q <= flen,
            Err(e) => skip_value(d@, flen, p, t, depth as nat) == Err::<u64, ErrorView>(e@),
        },
    decreases 3 - depth,
{
    if depth > 2 {
        return Err(GgufError::ArrayNesting);
    }
    match fixed_size_exec(t) {
        Some(n) => {
            return seek_exec(flen, p, n);
        },
        None => {},
    }
    if t == 8 {
        return match read_string_exec(d, flen, p) {
            Ok((_, p1)) => Ok(p1),
            Err(e) => Err(e),
        };
    }
    if t != 9 {
        return Err(GgufError::UnsupportedValueType(t));
    }
    let (et, p1) = match read_le(d, flen, p, 4) {
        Ok(x) => x,
        Err(e) => return Err(e),
    };
    let (count, p2) = match read_le(d, flen, p1, 8) {
        Ok(x) => x,
        Err(e) => return Err(e),
    };
    if count > MAX_GGUF_ARRAY_ITEMS {
        return Err(GgufError::ArrayTooLarge);
    }
    proof {
        lemma_le_value_bound(d@, p as int, 4);
        lemma_pow256_values();
    }
    let et = et as u32;
    match fixed_size_exec(et) {
        Some(size) => {
            assert(count * size <= 16000000) by (nonlinear_arith)
                requires
                    count <= 2000000,
                    size <= 8,
            ;
            return seek_exec(flen, p2, count * size);
        },
        None => {},
    }
    let ghost total = skip_items(d@, flen, p2, et, (depth + 1) as nat, count as nat);
    assert(skip_value(d@, flen, p, t, depth as nat) == total);
    let mut q: u64 = p2;
    let mut k: u64 = 0;
    while k < count
        invariant
            k <= count <= MAX_GGUF_ARRAY_ITEMS,
            q <= flen <= MAX_ADAPTER_BYTES,
            depth <= 2,
            fixed_size(et) is None,
            skip_value(d@, flen, p, t, depth as nat) == total,
            total == skip_items(d@, flen, q, et, (depth + 1) as nat, (count - k) as nat),
        decreases count - k,
    {
        match skip_value_exec(d, flen, q, et, depth + 1) {
            Ok(q1) => {
                q = q1;
            },
            Err(e) => {
                return Err(e);
            },
        }
        k = k + 1;
    }
    Ok(q)
}

fn is_key(key: &String, name: &str) -> (r: bool)
    ensures
        r == (key@ == name@),
{
    crate::text::str_eq(key.as_str(), name)
}

/// Read the metadata header of a GGUF file of length `file_len` from its
/// first bytes `data`.
pub fn inspect_gguf_metadata(data: &[u8], file_len: u64) -> (r: Result<GgufAdapterMetadata, GgufError>)
    ensures
        match r {
            Ok(m) => gguf_metadata(data@, file_len) == Ok::<MetadataView, ErrorView>(m@),
            Err(e) => gguf_metadata(data@, file_len) == Err::<MetadataView, ErrorView>(e@),
        },
{
    if file_len > MAX_ADAPTER_BYTES {
        return Err(GgufError::TooLarge);
    }
    if file_len < 4 {
        return Err(GgufError::UnexpectedEof);
    }
    if data.len() < 4 {
        return Err(GgufError::Incomplete(4));
    }
    let magic_ok = data[0] == 71u8 && data[1] == 71u8 && data[2] == 85u8 && data[3] == 70u8;
    proof {
        if magic_ok {
            assert(data@.subrange(0, 4) =~= seq![71u8, 71u8, 85u8, 70u8]);
        } else {
            assert(data@.subrange(0, 4) != seq![71u8, 71u8, 85u8, 70u8]) by {
                if data@.subrange(0, 4) == seq![71u8, 71u8, 85u8, 70u8] {
                    assert(data@.subrange(0, 4)[0] == data@[0]);
                    assert(data@.subrange(0, 4)[1] == data@[1]);
                    assert(data@.subrange(0, 4)[2] == data@[2]);
                    assert(data@.subrange(0, 4)[3] == data@[3]);
                }
            }
        }
    }
    if !magic_ok {
        return Err(GgufError::NotGguf);
    }
    let (version, p1) = match read_le(data, file_len, 4, 4) {
        Ok(x) => x,
        Err(e) => return Err(e),
    };
    proof {
        lemma_le_value_bound(data@, 4, 4);
        lemma_pow256_values();
    }
    if version < 2 || version > 3 {
        return Err(GgufError::UnsupportedVersion(version as u32));
    }
    let (_tensors, p2) = match read_le(data, file_len, p1, 8) {
        Ok(x) => x,
        Err(e) => return Err(e),
    };
    let (count, p3) = match read_le(data, file_len, p2, 8) {
        Ok(x) => x,
        Err(e) => return Err(e),
    };
    if count > MAX_GGUF_METADATA_ENTRIES {
        return Err(GgufError::TooManyEntries);
    }
    let ghost total = read_entries(data@, file_len, p3, count as nat, no_metadata());
    assert(gguf_metadata(data@, file_len) == total);
    let mut m = GgufAdapterMetadata { general_type: None, adapter_type: None, architecture: None };
    let mut q: u64 = p3;
    let mut k: u64 = 0;
    while k < count
        invariant
            k <= count,
            q <= file_len <= MAX_ADAPTER_BYTES,
            gguf_metadata(data@, file_len) == total,
            total == read_entries(data@, file_len, q, (count - k) as nat, m@),
        decreases count - k,
    {
        let (key, q1) = match read_string_exec(data, file_len, q) {
            Ok(x) => x,
            Err(e) => return Err(e),
        };
        let (t, q2) = match read_le(data, file_len, q1, 4) {
            Ok(x) => x,
            Err(e) => return Err(e),
        };
        let g = is_key(&key, "general.type");
        let a = is_key(&key, "adapter.type");
        let c = is_key(&key, "general.architecture");
        if g || a || c {
            if t != 8 {
                return Err(GgufError::KeyNotString(key));
            }
            let (v, q3) = match read_string_exec(data, file_len, q2) {
                Ok(x) => x,
                Err(e) => return Err(e),
            };
            if g {
                m.general_type = Some(v);
            } else if a {
                m.adapter_type = Some(v);
            } else {
                m.architecture = Some(v);
            }
            q = q3;
        } else {
            proof {
                lemma_le_value_bound(data@, q1 as int, 4);
                lemma_pow256_values();
            }
            match skip_value_exec(data, file_len, q2, t as u32, 0) {
                Ok(q3) => {
                    q = q3;
                },
                Err(e) => return Err(e),
            }
        }
        k = k + 1;
    }
    Ok(m)
}

/// The architecture a GGUF base model declares; a LoRA adapter is refused
/// in its place.
pub fn gguf_base_model_architecture(data: &[u8], file_len: u64) -> (r: Result<Option<String>, GgufError>)
    ensures
        match gguf_metadata(data@, file_len) {
            Err(e) => r matches Err(x) && x@ == e,
            Ok(m) => if m.general_type == Some("adapter"@) {
                r matches Err(x) && x is BaseIsAdapter
            } else {
                r matches Ok(a) && opt_view(a) == m.architecture
            },
        },
{
    let m = match inspect_gguf_metadata(data, file_len) {
        Ok(m) => m,
        Err(e) => return Err(e),
    };
    let adapter = match &m.general_type {
        Some(t) => crate::text::str_eq(t.as_str(), "adapter"),
        None => false,
    };
    if adapter {
        Err(GgufError::BaseIsAdapter)
    } else {
        Ok(m.architecture)
    }
}

/// The metadata of a llama.cpp LoRA adapter: `general.type` must be
/// `adapter` and `adapter.type` must be `lora`.
pub fn inspect_gguf_adapter(data: &[u8], file_len: u64) -> (r: Result<GgufAdapterMetadata, GgufError>)
    ensures
        match gguf_metadata(data@, file_len) {
            Err(e) => r matches Err(x) && x@ == e,
            Ok(m) => if m.general_type == Some("adapter"@) && m.adapter_type == Some("lora"@) {
                r matches Ok(x) && x@ == m
            } else {
                r matches Err(x) && x is NotLoraAdapter
            },
        },
{
    let m = match inspect_gguf_metadata(data, file_len) {
        Ok(m) => m,
        Err(e) => return Err(e),
    };
    let adapter = match &m.general_type {
        Some(t) => crate::text::str_eq(t.as_str(), "adapter"),
        None => false,
    };
    let lora = match &m.adapter_type {
        Some(t) => crate::text::str_eq(t.as_str(), "lora"),
        None => false,
    };
    if adapter && lora {
        Ok(m)
    } else {
        Err(GgufError::NotLoraAdapter)
    }
}


/// `d` is a prefix of `d2`, which lies within a file of length `flen`.
pub open spec fn prefix_of(d: Seq<u8>, d2: Seq<u8>, flen: u64) -> bool {
    d.len() <= d2.len() <= flen && d2.subrange(0, d.len() as int) == d
}

pub open spec fn incomplete<T>(r: Result<T, ErrorView>) -> bool {
    r matches Err(ErrorView::Incomplete(_))
}

/// An answer that asks for more bytes asks for bytes within the file and
/// past those at hand.
pub open spec fn asks_progress<T>(r: Result<T, ErrorView>, d: Seq<u8>, flen: u64) -> bool {
    r matches Err(ErrorView::Incomplete(n)) ==> d.len() < n <= flen
}

proof fn lemma_le_value_prefix(d: Seq<u8>, d2: Seq<u8>, p: int, n: nat)
    requires
        0 <= p,
        p + n <= d.len() <= d2.len(),
        d2.subrange(0, d.len() as int) == d,
    ensures
        le_value(d, p, n) == le_value(d2, p, n),
    decreases n,
{
    if n > 0 {
        assert(d2.subrange(0, d.len() as int)[p] == d2[p]);
        lemma_le_value_prefix(d, d2, p + 1, (n - 1) as nat);
    }
}

proof fn lemma_read_fixed_prefix(d: Seq<u8>, d2: Seq<u8>, flen: u64, p: u64, n: nat)
    requires
        prefix_of(d, d2, flen),
    ensures
        asks_progress(read_fixed(d, flen, p, n), d, flen),
        !incomplete(read_fixed(d, flen, p, n)) ==> read_fixed(d2, flen, p, n) == read_fixed(d, flen, p, n),
{
    if p + n <= d.len() {
        lemma_le_value_prefix(d, d2, p as int, n);
    }
}

proof fn lemma_read_string_prefix(d: Seq<u8>, d2: Seq<u8>, flen: u64, p: u64)
    requires
        prefix_of(d, d2, flen),
    ensures
        asks_progress(read_string(d, flen, p), d, flen),
        !incomplete(read_string(d, flen, p)) ==> read_string(d2, flen, p) == read_string(d, flen, p),
{
    lemma_read_fixed_prefix(d, d2, flen, p, 8);
    match read_fixed(d, flen, p, 8) {
        Ok((len, p1)) => {
            if p1 + len <= d.len() && len <= MAX_GGUF_STRING_BYTES {
                assert(d2.subrange(p1 as int, p1 + len) =~= d.subrange(p1 as int, p1 + len)) by {
                    assert forall|i: int| 0 <= i < len implies #[trigger] d2.subrange(p1 as int, p1 + len)[i]
                        == d.subrange(p1 as int, p1 + len)[i] by {
                        assert(d2.subrange(0, d.len() as int)[p1 + i] == d2[p1 + i]);
                    }
                }
            }
        },
        Err(_) => {},
    }
}

proof fn lemma_skip_value_prefix(d: Seq<u8>, d2: Seq<u8>, flen: u64, p: u64, t: u32, depth: nat)
    requires
        prefix_of(d, d2, flen),
    ensures
        asks_progress(skip_value(d, flen, p, t, depth), d, flen),
        !incomplete(skip_value(d, flen, p, t, depth)) ==> skip_value(d2, flen, p, t, depth) == skip_value(
            d,
            flen,
            p,
            t,
            depth,
        ),
    decreases 3 - depth, 1nat, 0nat,
{
    if depth <= 2 && fixed_size(t) is None {
        if t == 8 {
            lemma_read_string_prefix(d, d2, flen, p);
        } else if t == 9 {
            lemma_read_fixed_prefix(d, d2, flen, p, 4);
            match read_fixed(d, flen, p, 4) {
                Ok((et, p1)) => {
                    lemma_read_fixed_prefix(d, d2, flen, p1, 8);
                    match read_fixed(d, flen, p1, 8) {
                        Ok((count, p2)) => {
                            if count <= MAX_GGUF_ARRAY_ITEMS && fixed_size(et as u32) is None {
                                lemma_skip_items_prefix(d, d2, flen, p2, et as u32, depth + 1, count);
                            }
                        },
                        Err(_) => {},
                    }
                },
                Err(_) => {},
            }
        }
    }
}

proof fn lemma_skip_items_prefix(d: Seq<u8>, d2: Seq<u8>, flen: u64, p: u64, t: u32, depth: nat, count: nat)
    requires
        prefix_of(d, d2, flen),
    ensures
        asks_progress(skip_items(d, flen, p, t, depth, count), d, flen),
        !incomplete(skip_items(d, flen, p, t, depth, count)) ==> skip_items(d2, flen, p, t, depth, count)
            == skip_items(d, flen, p, t, depth, count),
    decreases 3 - depth, 2nat, count,
{
    if count > 0 && depth <= 3 {
        lemma_skip_value_prefix(d, d2, flen, p, t, depth);
        match skip_value(d, flen, p, t, depth) {
            Ok(p1) => {
                lemma_skip_items_prefix(d, d2, flen, p1, t, depth, (count - 1) as nat);
            },
            Err(_) => {},
        }
    }
}

proof fn lemma_read_entries_prefix(d: Seq<u8>, d2: Seq<u8>, flen: u64, p: u64, count: nat, m: MetadataView)
    requires
        prefix_of(d, d2, flen),
    ensures
        asks_progress(read_entries(d, flen, p, count, m), d, flen),
        !incomplete(read_entries(d, flen, p, count, m)) ==> read_entries(d2, flen, p, count, m) == read_entries(
            d,
            flen,
            p,
            count,
            m,
        ),
    decreases count,
{
    if count > 0 {
        lemma_read_string_prefix(d, d2, flen, p);
        match read_string(d, flen, p) {
            Ok((key, p1)) => {
                lemma_read_fixed_prefix(d, d2, flen, p1, 4);
                match read_fixed(d, flen, p1, 4) {
                    Ok((t, p2)) => {
                        if key == "general.type"@ || key == "adapter.type"@ || key == "general.architecture"@ {
                            if t == 8 {
                                lemma_read_string_prefix(d, d2, flen, p2);
                                match read_string(d, flen, p2) {
                                    Ok((v, p3)) => {
                                        let m2 = if key == "general.type"@ {
                                            MetadataView { general_type: Some(v), ..m }
                                        } else if key == "adapter.type"@ {
                                            MetadataView { adapter_type: Some(v), ..m }
                                        } else {
                                            MetadataView { architecture: Some(v), ..m }
                                        };
                                        lemma_read_entries_prefix(d, d2, flen, p3, (count - 1) as nat, m2);
                                    },
                                    Err(_) => {},
                                }
                            }
                        } else {
                            lemma_skip_value_prefix(d, d2, flen, p2, t as u32, 0);
                            match skip_value(d, flen, p2, t as u32, 0) {
                                Ok(p3) => {
                                    lemma_read_entries_prefix(d, d2, flen, p3, (count - 1) as nat, m);
                                },
                                Err(_) => {},
                            }
                        }
                    },
                    Err(_) => {},
                }
            },
            Err(_) => {},
        }
    }
}

/// Parsing the first bytes of a file either asks for more bytes, past
/// those at hand and within the file, or answers exactly as parsing the
/// whole file (or any longer prefix of it) does.
pub proof fn law_gguf_prefix_parse_is_final(d: Seq<u8>, d2: Seq<u8>, flen: u64)
    requires
        prefix_of(d, d2, flen),
    ensures
        asks_progress(gguf_metadata(d, flen), d, flen),
        !incomplete(gguf_metadata(d, flen)) ==> gguf_metadata(d2, flen) == gguf_metadata(d, flen),
{
    if flen <= MAX_ADAPTER_BYTES && flen >= 4 && d.len() >= 4 {
        assert(d2.subrange(0, 4) =~= d.subrange(0, 4)) by {
            assert forall|i: int| 0 <= i < 4 implies #[trigger] d2.subrange(0, 4)[i] == d.subrange(0, 4)[i] by {
                assert(d2.subrange(0, d.len() as int)[i] == d2[i]);
            }
        }
        lemma_read_fixed_prefix(d, d2, flen, 4, 4);
        match read_fixed(d, flen, 4, 4) {
            Ok((version, p1)) => {
                lemma_read_fixed_prefix(d, d2, flen, p1, 8);
                match read_fixed(d, flen, p1, 8) {
                    Ok((_, p2)) => {
                        lemma_read_fixed_prefix(d, d2, flen, p2, 8);
                        match read_fixed(d, flen, p2, 8) {
                            Ok((count, p3)) => {
                                lemma_read_entries_prefix(d, d2, flen, p3, count, no_metadata());
                            },
                            Err(_) => {},
                        }
                    },
                    Err(_) => {},
                }
            },
            Err(_) => {},
        }
    }
}

} // verus!
