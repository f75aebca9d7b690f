//! What the runtime reads from a SPIR-V module before handing it to the
//! driver: that it is one, the names of its entry points, and which entry
//! point a kernel runs.
use vstd::prelude::*;
use vstd::utf8::*;
use crate::text::str_eq;
use crate::tensor_bytes::{be_units, le_units, widen32};

verus! {

/// Why bytes are not a SPIR-V module.
#[derive(Clone, Copy, Debug, PartialEq, Eq, Structural)]
pub enum SpirvError {
    InvalidSize,
    InvalidMagic,
    Unaligned,
}

/// The SPIR-V magic number.
pub const SPIRV_MAGIC: u32 = 0x0723_0203;

/// The opcode of an entry point declaration.
pub const OP_ENTRY_POINT: u32 = 15;

/// What `String::from_utf8_lossy` gives for some bytes: their decoding,
/// with each invalid sequence replaced by U+FFFD.
pub uninterp spec fn utf8_lossy(b: Seq<u8>) -> Seq<char>;

/// `String::from_utf8_lossy`, made an owned string. Trusted: the result is
/// `utf8_lossy` of the bytes, and for valid UTF-8 it is their decoding; how
/// invalid sequences are replaced is not stated.
#[verifier::external_body]
fn lossy_string(b: &[u8]) -> (r: String)
    ensures
        r@ == utf8_lossy(b@),
        valid_utf8(b@) ==> r@ == decode_utf8(b@),
{
    String::from_utf8_lossy(b).to_string()
}

/// `bytemuck::try_cast_slice` from bytes to 32-bit words. Trusted: it
/// fails when the length is not a multiple of four or the bytes are not
/// aligned for words (which depends on their address), and otherwise gives
/// each four bytes read in the machine's byte order: least significant
/// byte first, or most significant byte first.
#[verifier::external_body]
fn words_of(b: &[u8]) -> (r: Option<Vec<u32>>)
    ensures
        b@.len() % 4 != 0 ==> r is None,
        r matches Some(v) ==> 4 * v@.len() == b@.len() && (widen32(v@) == le_units(b@, 4) || widen32(v@)
            == be_units(b@, 4)),
{
    match bytemuck::try_cast_slice::<u8, u32>(b) {
        Ok(s) => Some(s.to_vec()),
        Err(_) => None,
    }
}

/// The 32-bit words of a module's bytes, in the machine's byte order: none
/// when the bytes are not whole words (or not aligned for words).
pub fn spirv_words(bytes: &[u8]) -> (r: Option<Vec<u32>>)
    ensures
        bytes@.len() % 4 != 0 ==> r is None,
        r matches Some(v) ==> 4 * v@.len() == bytes@.len() && (widen32(v@) == le_units(bytes@, 4) || widen32(v@)
            == be_units(bytes@, 4)),
{
    words_of(bytes)
}

/// The header of a module checks out: five header words, the first the
/// magic number.
pub open spec fn header_ok(words: Seq<u32>) -> bool {
    words.len() >= 5 && words[0] == SPIRV_MAGIC
}

/// Words read from bytes (as storage units) start with a valid header.
pub open spec fn units_header_ok(u: Seq<u64>) -> bool {
    u.len() >= 5 && u[0] == SPIRV_MAGIC as u64
}

/// Whether the words of a module start with a valid header.
pub fn check_header(words: &[u32]) -> (r: bool)
    ensures
        r == header_ok(words@),
{
    words.len() >= 5 && words[0] == SPIRV_MAGIC
}

/// Check that bytes hold a SPIR-V module: whole words, at least a header,
/// and the magic number first, read in the machine's byte order: least or
/// most significant byte first, so the clauses speak of both readings.
pub fn validate_spirv(bytes: &[u8], target: &str) -> (r: Result<(), SpirvError>)
    ensures
        (bytes@.len() < 20 || bytes@.len() % 4 != 0) <==> r == Err::<(), SpirvError>(SpirvError::InvalidSize),
        r is Ok || r == Err::<(), SpirvError>(SpirvError::InvalidSize) || r == Err::<(), SpirvError>(
            SpirvError::Unaligned,
        ) || r == Err::<(), SpirvError>(SpirvError::InvalidMagic),
        r is Ok ==> units_header_ok(le_units(bytes@, 4)) || units_header_ok(be_units(bytes@, 4)),
        r == Err::<(), SpirvError>(SpirvError::InvalidMagic) ==> !units_header_ok(le_units(bytes@, 4))
            || !units_header_ok(be_units(bytes@, 4)),
{
    if bytes.len() < 20 || bytes.len() % 4 != 0 {
        return Err(SpirvError::InvalidSize);
    }
    let words = match words_of(bytes) {
        Some(w) => w,
        None => return Err(SpirvError::Unaligned),
    };
    if !check_header(words.as_slice()) {
        assert(!units_header_ok(widen32(words@)));
        return Err(SpirvError::InvalidMagic);
    }
    assert(units_header_ok(widen32(words@)));
    Ok(())
}

/// Byte `j` of words laid out little-endian.
pub open spec fn le_byte(words: Seq<u32>, j: int) -> u8 {
    ((words[j / 4] >> (8 * (j % 4)) as u32) & 0xFF) as u8
}

/// The position of the first zero byte at or after `j`, if any.
pub open spec fn first_zero_from(words: Seq<u32>, j: int) -> Option<int>
    decreases 4 * words.len() - j,
{
    if j < 0 || j >= 4 * words.len() {
        None
    } else if le_byte(words, j) == 0 {
        Some(j)
    } else {
        first_zero_from(words, j + 1)
    }
}

/// A string packed into words: the little-endian bytes up to the first
/// zero byte (or all of them), decoded leniently, and the number of words
/// it took up.
pub open spec fn spv_string_spec(words: Seq<u32>) -> (Seq<char>, nat) {
    match first_zero_from(words, 0) {
        Some(z) => (utf8_lossy(Seq::new(z as nat, |j: int| le_byte(words, j))), (z / 4 + 1) as nat),
        None => (utf8_lossy(Seq::new(4 * words.len(), |j: int| le_byte(words, j))), words.len()),
    }
}

proof fn lemma_first_zero_skip(words: Seq<u32>, j: int, k: int)
    requires
        0 <= j <= k <= 4 * words.len(),
        forall|i: int| j <= i < k ==> le_byte(words, i) != 0,
    ensures
        first_zero_from(words, j) == first_zero_from(words, k),
    decreases k - j,
{
    if j < k {
        lemma_first_zero_skip(words, j + 1, k);
    }
}

/// Read a string packed into words, as `spv_string_spec` gives it.
pub fn read_spv_string(words: &[u32]) -> (r: (String, usize))
    ensures
        (r.0@, r.1 as nat) == spv_string_spec(words@),
{
    let mut bytes: Vec<u8> = Vec::new();
    let mut w: usize = 0;
    let nw = words.len();
    while w < nw
        invariant
            nw == words@.len(),
            w <= words@.len(),
            bytes@ == Seq::new(4 * w as nat, |j: int| le_byte(words@, j)),
            forall|i: int| 0 <= i < 4 * w ==> le_byte(words@, i) != 0,
        decreases words@.len() - w,
    {
        let word = words[w];
        let mut k: u32 = 0;
        while k < 4
            invariant
                nw == words@.len(),
                w < nw,
                word == words@[w as int],
                k <= 4,
                bytes@ == Seq::new((4 * w + k) as nat, |j: int| le_byte(words@, j)),
                forall|i: int| 0 <= i < 4 * w + k ==> le_byte(words@, i) != 0,
            decreases 4 - k,
        {
            let b = ((word >> (8 * k)) & 0xFF) as u8;
            assert(b == le_byte(words@, 4 * w + k)) by {
                assert((4 * w + k) / 4 == w as int);
                assert((4 * w + k) % 4 == k as int);
            }
            if b == 0 {
                proof {
                    lemma_first_zero_skip(words@, 0, 4 * w + k);
                }
                let s = lossy_string(bytes.as_slice());
                assert((4 * w + k) / 4 + 1 == w + 1);
                return (s, w + 1);
            }
            bytes.push(b);
            k = k + 1;
            assert(bytes@ =~= Seq::new((4 * w + k) as nat, |j: int| le_byte(words@, j)));
        }
        w = w + 1;
    }
    proof {
        lemma_first_zero_skip(words@, 0, 4 * words@.len() as int);
    }
    (lossy_string(bytes.as_slice()), words.len())
}

/// Every instruction from `offset` on lies inside the module, up to the end
/// or to an instruction of length zero.
pub open spec fn framed_from(words: Seq<u32>, offset: nat) -> bool
    decreases words.len() - offset,
{
    if offset >= words.len() {
        true
    } else {
        let count = (words[offset as int] >> 16) as nat;
        if count == 0 {
            true
        } else {
            offset + count <= words.len() && framed_from(words, offset + count)
        }
    }
}

/// The instructions of a module lie inside it.
pub open spec fn framed(words: Seq<u32>) -> bool {
    words.len() < 5 || framed_from(words, 5)
}

/// The names of the entry points declared from `offset` on, in order; an
/// empty name is skipped.
pub open spec fn entries_from(words: Seq<u32>, offset: nat) -> Seq<Seq<char>>
    decreases words.len() - offset,
{
    if offset >= words.len() {
        Seq::empty()
    } else {
        let w = words[offset as int];
        let count = (w >> 16) as nat;
        if count == 0 {
            Seq::empty()
        } else {
            let here = if (w & 0xFFFF) == OP_ENTRY_POINT && count >= 4 && offset + count <= words.len() {
                let name = spv_string_spec(words.subrange(offset + 3 as int, (offset + count) as int)).0;
                if name.len() > 0 {
                    seq![name]
                } else {
                    Seq::empty()
                }
            } else {
                Seq::empty()
            };
            if offset + count > words.len() {
                here
            } else {
                here + entries_from(words, offset + count)
            }
        }
    }
}

/// The names of a module's entry points.
pub open spec fn entrypoints_spec(words: Seq<u32>) -> Seq<Seq<char>> {
    if words.len() < 5 {
        Seq::empty()
    } else {
        entries_from(words, 5)
    }
}

/// Whether the instructions of a module lie inside it.
pub fn is_framed(words: &[u32]) -> (r: bool)
    ensures
        r == framed(words@),
{
    if words.len() < 5 {
        return true;
    }
    let mut offset: usize = 5;
    while offset < words.len()
        invariant
            5 <= offset,
            framed(words@) == framed_from(words@, offset as nat),
        decreases words@.len() - offset,
    {
        let count = (words[offset] >> 16) as usize;
        if count == 0 {
            return true;
        }
        if count > words.len() - offset {
            return false;
        }
        offset = offset + count;
    }
    true
}

/// The views of a list of strings.
pub open spec fn string_views(v: Seq<String>) -> Seq<Seq<char>> {
    Seq::new(v.len(), |i: int| v[i]@)
}

/// The names of a module's entry points, as `entrypoints_spec` gives them;
/// the module's instructions must lie inside it.
pub fn spirv_entrypoints(words: &[u32]) -> (r: Vec<String>)
    requires
        framed(words@),
    ensures
        string_views(r@) == entrypoints_spec(words@),
{
    let mut names: Vec<String> = Vec::new();
    if words.len() < 5 {
        assert(string_views(names@) =~= Seq::<Seq<char>>::empty());
        return names;
    }
    let mut offset: usize = 5;
    assert(string_views(names@) =~= Seq::<Seq<char>>::empty());
    while offset < words.len()
        invariant
            5 <= offset,
            framed_from(words@, offset as nat),
            string_views(names@) + entries_from(words@, offset as nat) == entries_from(words@, 5),
        decreases words@.len() - offset,
    {
        let word = words[offset];
        let count = (word >> 16) as usize;
        if count == 0 {
            assert(string_views(names@) + Seq::<Seq<char>>::empty() =~= string_views(names@));
            return names;
        }
        let ghost before = string_views(names@);
        if (word & 0xFFFF) == OP_ENTRY_POINT && count >= 4 {
            let (name, _) = read_spv_string(&words[offset + 3..offset + count]);
            assert(words@.subrange(offset + 3, offset + count as int) == words@.subrange(
                (offset + 3) as int,
                (offset + count) as int,
            ));
            if name.unicode_len() > 0 {
                names.push(name);
            }
        }
        assert(string_views(names@) + entries_from(words@, (offset + count) as nat) =~= entries_from(words@, 5)) by {
            assert(string_views(names@) =~= before + (if (word & 0xFFFF) == OP_ENTRY_POINT && count >= 4 {
                let n = spv_string_spec(words@.subrange(offset + 3, offset + count as int)).0;
                if n.len() > 0 {
                    seq![n]
                } else {
                    Seq::empty()
                }
            } else {
                Seq::empty()
            }));
        }
        offset = offset + count;
    }
    assert(string_views(names@) + Seq::<Seq<char>>::empty() =~= string_views(names@));
    names
}

/// The entry point a kernel runs: its own name when the module declares
/// it, else `main` when declared, else the first declared, else `main`.
pub open spec fn select_spec(names: Seq<Seq<char>>, target: Seq<char>) -> Seq<char> {
    if names.contains(target) {
        target
    } else if names.contains("main"@) {
        "main"@
    } else if names.len() > 0 {
        names[0]
    } else {
        "main"@
    }
}

fn holds(v: &[String], s: &str) -> (r: bool)
    ensures
        r == string_views(v@).contains(s@),
{
    let mut i: usize = 0;
    while i < v.len()
        invariant
            i <= v@.len(),
            forall|j: int| 0 <= j < i ==> v@[j]@ != s@,
        decreases v@.len() - i,
    {
        if str_eq(v[i].as_str(), s) {
            assert(string_views(v@)[i as int] == s@);
            return true;
        }
        i = i + 1;
    }
    assert(!string_views(v@).contains(s@)) by {
        if string_views(v@).contains(s@) {
            let j = choose|j: int| 0 <= j < string_views(v@).len() && string_views(v@)[j] == s@;
            assert(v@[j]@ == s@);
        }
    }
    false
}

/// Choose the entry point a kernel runs, as `select_spec` says.
pub fn select_entrypoint<'a>(entrypoints: &'a [String], target: &'a str) -> (r: &'a str)
    ensures
        r@ == select_spec(string_views(entrypoints@), target@),
{
    if holds(entrypoints, target) {
        return target;
    }
    if holds(entrypoints, "main") {
        return "main";
    }
    if entrypoints.len() > 0 {
        return entrypoints[0].as_str();
    }
    "main"
}

} // verus!
