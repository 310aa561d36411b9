//! Names and numbers in text: chunk file names, temporary names, settings.
use crate::text::{decimal, decimal_text, digit, join};
use crate::types::ChunkId;
use vstd::prelude::*;
use vstd::string::StringSliceAdditionalSpecFns;
use vstd::utf8::{encode_utf8, is_ascii_chars, is_ascii_chars_encode_utf8};

verus! {

// ---------------------------------------------------------------------------
// Hexadecimal.
// ---------------------------------------------------------------------------

/// The value of a hexadecimal digit, in either case.
pub open spec fn nibble(b: u8) -> Option<u8> {
    if 48 <= b <= 57 {
        Some((b - 48) as u8)
    } else if 97 <= b <= 102 {
        Some((b - 87) as u8)
    } else if 65 <= b <= 70 {
        Some((b - 55) as u8)
    } else {
        None
    }
}

/// The value of two characters read as a number in base sixteen: two digits, or a plus sign and
/// one digit.
pub open spec fn hex_pair(a: u8, b: u8) -> Option<u8> {
    if a == 43 {
        nibble(b)
    } else {
        match (nibble(a), nibble(b)) {
            (Some(x), Some(y)) => Some((16 * x + y) as u8),
            _ => None,
        }
    }
}

/// Every two characters are a number in base sixteen.
pub open spec fn is_hex(s: Seq<u8>) -> bool {
    forall|i: int|
        #![trigger s[2 * i]]
        0 <= i < s.len() / 2 ==> hex_pair(s[2 * i], s[2 * i + 1]) is Some
}

/// The bytes that such a text stands for.
pub open spec fn hex_value(s: Seq<u8>) -> Seq<u8> {
    Seq::new((s.len() / 2) as nat, |i: int| hex_pair(s[2 * i], s[2 * i + 1])->0)
}

fn nibble_exec(b: u8) -> (r: Option<u8>)
    ensures
        r == nibble(b),
{
    if 48 <= b && b <= 57 {
        Some(b - 48)
    } else if 97 <= b && b <= 102 {
        Some(b - 87)
    } else if 65 <= b && b <= 70 {
        Some(b - 55)
    } else {
        None
    }
}

fn hex_pair_exec(a: u8, b: u8) -> (r: Option<u8>)
    ensures
        r == hex_pair(a, b),
{
    if a == 43 {
        nibble_exec(b)
    } else {
        match (nibble_exec(a), nibble_exec(b)) {
            (Some(x), Some(y)) => Some(16 * x + y),
            _ => None,
        }
    }
}

/// Reads a text as hexadecimal, two characters for each byte.
pub fn hex_to_bytes(hex: &str) -> (r: Result<Vec<u8>, String>)
    requires
        hex.spec_bytes().len() % 2 == 0,
    ensures
        match r {
            Ok(bytes) => is_hex(hex.spec_bytes()) && bytes@ == hex_value(hex.spec_bytes()),
            Err(text) => !is_hex(hex.spec_bytes()) && text@ == "Invalid hex string: "@ + hex@,
        },
{
    let s: &[u8] = hex.as_bytes();
    let ghost sv = hex.spec_bytes();
    let n: usize = s.len() / 2;
    let mut out: Vec<u8> = Vec::new();
    let mut i: usize = 0;
    while i < n
        invariant
            i <= n,
            n == s@.len() / 2,
            s@ == sv,
            sv == hex.spec_bytes(),
            s@.len() <= usize::MAX,
            out@.len() == i,
            forall|j: int|
                #![trigger s@[2 * j]]
                0 <= j < i ==> hex_pair(s@[2 * j], s@[2 * j + 1]) == Some(out@[j]),
        decreases n - i,
    {
        match hex_pair_exec(s[2 * i], s[2 * i + 1]) {
            Some(v) => {
                out.push(v);
            },
            None => {
                assert(hex_pair(sv[2 * (i as int)], sv[2 * (i as int) + 1]) is None);
                return Err(join("Invalid hex string: ", hex));
            },
        }
        i += 1;
    }
    assert(out@ =~= hex_value(sv)) by {
        assert forall|j: int| 0 <= j < out@.len() implies out@[j] == hex_value(sv)[j] by {
            assert(hex_pair(s@[2 * j], s@[2 * j + 1]) == Some(out@[j]));
        }
    }
    Ok(out)
}

/// A lower-case hexadecimal digit.
pub open spec fn hex_char(n: u8) -> char {
    if n < 10 {
        digit(n as nat)
    } else if n == 10 {
        'a'
    } else if n == 11 {
        'b'
    } else if n == 12 {
        'c'
    } else if n == 13 {
        'd'
    } else if n == 14 {
        'e'
    } else {
        'f'
    }
}

/// Bytes written in lower-case hexadecimal.
pub open spec fn hex_of(bytes: Seq<u8>) -> Seq<char> {
    Seq::new(
        2 * bytes.len(),
        |i: int|
            if i % 2 == 0 {
                hex_char(bytes[i / 2] / 16)
            } else {
                hex_char(bytes[i / 2] % 16)
            },
    )
}

fn hex_digit_text(n: u8) -> (r: &'static str)
    requires
        n < 16,
    ensures
        r@ == seq![hex_char(n)],
{
    proof {
        reveal_strlit("0");
        reveal_strlit("1");
        reveal_strlit("2");
        reveal_strlit("3");
        reveal_strlit("4");
        reveal_strlit("5");
        reveal_strlit("6");
        reveal_strlit("7");
        reveal_strlit("8");
        reveal_strlit("9");
        reveal_strlit("a");
        reveal_strlit("b");
        reveal_strlit("c");
        reveal_strlit("d");
        reveal_strlit("e");
        reveal_strlit("f");
    }
    let r: &'static str = match n {
        0 => "0",
        1 => "1",
        2 => "2",
        3 => "3",
        4 => "4",
        5 => "5",
        6 => "6",
        7 => "7",
        8 => "8",
        9 => "9",
        10 => "a",
        11 => "b",
        12 => "c",
        13 => "d",
        14 => "e",
        _ => "f",
    };
    assert(r@ =~= seq![hex_char(n)]);
    r
}

/// Writes bytes `from..to` in lower-case hexadecimal.
fn hex_text(bytes: &[u8], from: usize, to: usize) -> (r: String)
    requires
        from <= to <= bytes@.len(),
    ensures
        r@ == hex_of(bytes@.subrange(from as int, to as int)),
{
    let mut s: String = String::new();
    let mut i: usize = from;
    while i < to
        invariant
            from <= i <= to <= bytes@.len(),
            s@ =~= hex_of(bytes@.subrange(from as int, i as int)),
        decreases to - i,
    {
        let ghost before = s@;
        let b: u8 = bytes[i];
        s.append(hex_digit_text(b / 16));
        s.append(hex_digit_text(b % 16));
        proof {
            let sub = bytes@.subrange(from as int, i + 1);
            assert(sub[i - from] == b);
            assert(s@ =~= before.push(hex_char(b / 16)).push(hex_char(b % 16)));
            assert forall|k: int| 0 <= k < s@.len() implies s@[k] == hex_of(sub)[k] by {
                if k < before.len() {
                    assert(sub[k / 2] == bytes@.subrange(from as int, i as int)[k / 2]);
                }
            }
            assert(s@ =~= hex_of(sub));
        }
        i += 1;
    }
    s
}

impl ChunkId {
    /// The names under which a chunk is stored: two directory levels from its first two bytes,
    /// and the file named by all of them.
    pub fn storage_path_components(&self) -> (r: (String, String, String))
        ensures
            r.0@ == hex_of(self.hash@.subrange(0, 1)),
            r.1@ == hex_of(self.hash@.subrange(1, 2)),
            r.2@ == hex_of(self.hash@),
    {
        let bytes: &[u8] = self.hash.as_slice();
        assert(bytes@.subrange(0, 32) =~= self.hash@);
        (hex_text(bytes, 0, 1), hex_text(bytes, 1, 2), hex_text(bytes, 0, 32))
    }
}

// ---------------------------------------------------------------------------
// Chunk file names.
// ---------------------------------------------------------------------------

/// The chunk that a file name stands for.
pub open spec fn named_chunk(name: Seq<u8>) -> Option<ChunkId> {
    if name.len() == 64 && is_hex(name) {
        Some(ChunkId { hash: array32(hex_value(name)) })
    } else {
        None
    }
}

/// Thirty-two bytes as an array.
pub open spec fn array32(s: Seq<u8>) -> [u8; 32] {
    choose|a: [u8; 32]| a@ == s
}

fn to_array(v: &Vec<u8>) -> (a: [u8; 32])
    requires
        v@.len() == 32,
    ensures
        a@ == v@,
        a == array32(v@),
{
    let mut a: [u8; 32] = [0; 32];
    let mut i: usize = 0;
    while i < 32
        invariant
            i <= 32,
            v@.len() == 32,
            forall|j: int| 0 <= j < i ==> a@[j] == v@[j],
        decreases 32 - i,
    {
        a[i] = v[i];
        i += 1;
    }
    assert(a@ =~= v@);
    assert(array32(v@)@ == v@);
    assert(a =~= array32(v@));
    a
}

/// Reads the name of a chunk file. Names that are no chunk's give nothing.
pub fn chunk_id_from_filename(name: &str) -> (r: Option<ChunkId>)
    ensures
        r == named_chunk(name.spec_bytes()),
{
    let bytes: &[u8] = name.as_bytes();
    if bytes.len() != 64 {
        return None;
    }
    match hex_to_bytes(name) {
        Ok(v) => Some(ChunkId { hash: to_array(&v) }),
        Err(_) => None,
    }
}

proof fn hex_char_value(n: u8)
    requires
        n < 16,
    ensures
        (hex_char(n) as u32) < 128,
        nibble(hex_char(n) as u8) == Some(n),
        hex_char(n) as u8 != 43,
{
}

/// A chunk's file name is read back as that chunk.
pub proof fn chunk_filename_round_trip(chunk: ChunkId)
    ensures
        named_chunk(encode_utf8(hex_of(chunk.hash@))) == Some(chunk),
{
    let text = hex_of(chunk.hash@);
    assert(is_ascii_chars(text)) by {
        assert forall|i: int| 0 <= i < text.len() implies (#[trigger] text[i]) as u32 <= 127 by {
            hex_char_value(chunk.hash@[i / 2] / 16);
            hex_char_value(chunk.hash@[i / 2] % 16);
        }
    }
    is_ascii_chars_encode_utf8(text);
    let name = encode_utf8(text);
    assert(name.len() == 64);
    assert forall|i: int|
        #![trigger name[2 * i]]
        0 <= i < name.len() / 2 implies hex_pair(name[2 * i], name[2 * i + 1]) == Some(
        chunk.hash@[i],
    ) by {
        let b = chunk.hash@[i];
        hex_char_value(b / 16);
        hex_char_value(b % 16);
        assert(text[2 * i] == hex_char(b / 16));
        assert(text[2 * i + 1] == hex_char(b % 16));
        assert(name[2 * i] == text[2 * i] as u8);
        assert(name[2 * i + 1] == text[2 * i + 1] as u8);
        assert(16 * (b / 16) + b % 16 == b);
    }
    assert(hex_value(name) =~= chunk.hash@) by {
        assert forall|i: int| 0 <= i < 32 implies hex_value(name)[i] == chunk.hash@[i] by {
            assert(hex_pair(name[2 * i], name[2 * i + 1]) == Some(chunk.hash@[i]));
        }
    }
    assert(array32(chunk.hash@)@ == chunk.hash@);
    assert(array32(chunk.hash@) =~= chunk.hash);
}

/// A file that is still being written: its name has something before a last `.tmp`.
pub open spec fn is_temp_name(name: Seq<u8>) -> bool {
    name.len() > 4 && name.subrange(name.len() - 4, name.len() as int) == seq![
        46u8,
        116u8,
        109u8,
        112u8,
    ]
}

pub fn is_temp_name_exec(name: &str) -> (r: bool)
    ensures
        r == is_temp_name(name.spec_bytes()),
{
    let b: &[u8] = name.as_bytes();
    let n: usize = b.len();
    if n <= 4 {
        return false;
    }
    let r: bool = b[n - 4] == 46 && b[n - 3] == 116 && b[n - 2] == 109 && b[n - 1] == 112;
    proof {
        let s = name.spec_bytes();
        let tail = s.subrange(s.len() - 4, s.len() as int);
        let tmp = seq![46u8, 116u8, 109u8, 112u8];
        if r {
            assert(tail =~= tmp);
        } else if tail == tmp {
            assert(tail[0] == 46 && tail[1] == 116 && tail[2] == 109 && tail[3] == 112);
        }
    }
    r
}

/// The name of the temporary file that write number `seq` of a chunk file goes to.
pub open spec fn temp_name_of(filename: Seq<char>, seq: u64) -> Seq<char> {
    filename + "."@ + decimal(seq as nat) + ".tmp"@
}

pub fn temp_name(filename: &str, seq: u64) -> (r: String)
    ensures
        r@ == temp_name_of(filename@, seq),
{
    let mut s: String = join(filename, ".");
    s.append(decimal_text(seq).as_str());
    s.append(".tmp");
    s
}

proof fn digit_injective(a: nat, b: nat)
    requires
        a < 10,
        b < 10,
        digit(a) == digit(b),
    ensures
        a == b,
{
}

proof fn decimal_nonempty(n: nat)
    ensures
        decimal(n).len() >= 1,
        n >= 10 ==> decimal(n).len() >= 2,
    decreases n,
{
    if n >= 10 {
        decimal_nonempty(n / 10);
    }
}

/// Different numbers are written differently.
pub proof fn decimal_injective(a: nat, b: nat)
    requires
        decimal(a) == decimal(b),
    ensures
        a == b,
    decreases a,
{
    decimal_nonempty(a);
    decimal_nonempty(b);
    let da = decimal(a);
    let db = decimal(b);
    if a < 10 && b < 10 {
        assert(seq![digit(a)][0] == digit(a));
        assert(seq![digit(b)][0] == digit(b));
        digit_injective(a, b);
    } else if a >= 10 && b >= 10 {
        assert(da.drop_last() =~= decimal(a / 10));
        assert(db.drop_last() =~= decimal(b / 10));
        decimal_injective(a / 10, b / 10);
        assert(da.last() == digit(a % 10));
        assert(db.last() == digit(b % 10));
        digit_injective(a % 10, b % 10);
    } else if a < 10 {
        assert(da.len() == 1);
    } else {
        assert(db.len() == 1);
    }
}

/// Two writes of one chunk file never share a temporary file.
pub proof fn temp_names_differ(filename: Seq<char>, a: u64, b: u64)
    requires
        a != b,
    ensures
        temp_name_of(filename, a) != temp_name_of(filename, b),
{
    reveal_strlit(".");
    reveal_strlit(".tmp");
    let ta = temp_name_of(filename, a);
    let tb = temp_name_of(filename, b);
    if ta == tb {
        let k = filename.len() as int + 1;
        assert(ta.subrange(k, ta.len() - 4) =~= decimal(a as nat));
        assert(tb.subrange(k, tb.len() - 4) =~= decimal(b as nat));
        decimal_injective(a as nat, b as nat);
    }
}

// ---------------------------------------------------------------------------
// Settings.
// ---------------------------------------------------------------------------

/// Every character is a decimal digit.
pub open spec fn all_digits(s: Seq<u8>) -> bool {
    forall|i: int| 0 <= i < s.len() ==> 48 <= #[trigger] s[i] <= 57
}

/// The number that decimal digits stand for.
pub open spec fn digits_value(s: Seq<u8>) -> nat
    decreases s.len(),
{
    if s.len() == 0 {
        0
    } else {
        10 * digits_value(s.drop_last()) + (s.last() - 48) as nat
    }
}

/// The digits of a number that may start with a plus sign.
pub open spec fn unsigned_part(s: Seq<u8>) -> Seq<u8> {
    if s.len() > 0 && s[0] == 43 {
        s.drop_first()
    } else {
        s
    }
}

/// The number that a text stands for: decimal digits, at least one, perhaps behind a plus sign,
/// with a value that fits.
pub open spec fn number_in(s: Seq<u8>) -> Option<u64> {
    let d = unsigned_part(s);
    if d.len() > 0 && all_digits(d) && digits_value(d) <= u64::MAX {
        Some(digits_value(d) as u64)
    } else {
        None
    }
}

proof fn digits_value_grows(s: Seq<u8>, k: int)
    requires
        0 <= k <= s.len(),
        all_digits(s),
    ensures
        digits_value(s.take(k)) <= digits_value(s),
    decreases s.len() - k,
{
    if k == s.len() {
        assert(s.take(k) =~= s);
    } else {
        assert(s.take(k + 1).drop_last() =~= s.take(k));
        digits_value_grows(s, k + 1);
        assert(s.take(k + 1).last() == s[k]);
    }
}

/// Reads a number in decimal.
pub fn parse_u64(text: &str) -> (r: Option<u64>)
    ensures
        r == number_in(text.spec_bytes()),
{
    let s: &[u8] = text.as_bytes();
    let ghost sv = text.spec_bytes();
    let ghost d = unsigned_part(sv);
    let n: usize = s.len();
    let start: usize = if n > 0 && s[0] == 43 {
        1
    } else {
        0
    };
    assert(d =~= sv.subrange(start as int, n as int));
    if start == n {
        return None;
    }
    let mut value: u64 = 0;
    let mut i: usize = start;
    assert(d.take(0) =~= Seq::<u8>::empty());
    while i < n
        invariant
            start <= i <= n,
            n == s@.len(),
            s@ == sv,
            sv == text.spec_bytes(),
            d == unsigned_part(sv),
            d == sv.subrange(start as int, n as int),
            d.len() > 0,
            value == digits_value(d.take(i - start)),
            forall|j: int| 0 <= j < i - start ==> 48 <= #[trigger] d[j] <= 57,
        decreases n - i,
    {
        let c: u8 = s[i];
        assert(d[i - start] == c);
        if c < 48 || c > 57 {
            return None;
        }
        proof {
            assert(d.take(i - start + 1).drop_last() =~= d.take(i - start));
            assert(d.take(i - start + 1).last() == c);
        }
        let k: u64 = (c - 48) as u64;
        if value > (u64::MAX - k) / 10 {
            proof {
                assert(10 * value + k > u64::MAX);
                if all_digits(d) {
                    digits_value_grows(d, i - start + 1);
                }
            }
            return None;
        }
        value = value * 10 + k;
        i += 1;
    }
    assert(d.take(i - start) =~= d);
    Some(value)
}

/// How long a batch of background writes waits for company when nothing else is set.
pub const DEFAULT_LINGER_MS: u64 = 1000;

/// The linger time that a setting asks for.
pub open spec fn linger_of(value: Option<Seq<u8>>) -> u64 {
    match value {
        Some(text) => match number_in(text) {
            Some(n) => n,
            None => DEFAULT_LINGER_MS,
        },
        None => DEFAULT_LINGER_MS,
    }
}

/// The linger time that a setting asks for; what is no number counts as unset.
pub fn linger_setting(value: Option<&str>) -> (r: u64)
    ensures
        r == match value {
            Some(text) => match number_in(text.spec_bytes()) {
                Some(n) => n,
                None => DEFAULT_LINGER_MS,
            },
            None => DEFAULT_LINGER_MS,
        },
        r == linger_of(
            match value {
                Some(text) => Some(text.spec_bytes()),
                None => None,
            },
        ),
{
    match value {
        Some(text) => match parse_u64(text) {
            Some(n) => n,
            None => DEFAULT_LINGER_MS,
        },
        None => DEFAULT_LINGER_MS,
    }
}

/// An ASCII letter in lower case; other characters stay.
pub open spec fn lower(b: u8) -> u8 {
    if 65 <= b <= 90 {
        (b + 32) as u8
    } else {
        b
    }
}

/// The setting says yes: `1`, or `true` in any case.
pub open spec fn says_yes(s: Seq<u8>) -> bool {
    s == seq![49u8] || (s.len() == 4 && lower(s[0]) == 116 && lower(s[1]) == 114 && lower(s[2])
        == 117 && lower(s[3]) == 101)
}

fn lower_exec(b: u8) -> (r: u8)
    ensures
        r == lower(b),
{
    if 65 <= b && b <= 90 {
        b + 32
    } else {
        b
    }
}

/// Whether a switch is on. An unset one is off.
pub fn switch_setting(value: Option<&str>) -> (r: bool)
    ensures
        r == match value {
            Some(text) => says_yes(text.spec_bytes()),
            None => false,
        },
{
    match value {
        Some(text) => {
            let s: &[u8] = text.as_bytes();
            let n: usize = s.len();
            if n == 1 {
                let r: bool = s[0] == 49;
                proof {
                    let sv = text.spec_bytes();
                    if r {
                        assert(sv =~= seq![49u8]);
                    } else if sv == seq![49u8] {
                        assert(sv[0] == 49);
                    }
                }
                r
            } else if n == 4 {
                assert(text.spec_bytes() != seq![49u8]) by {
                    assert(seq![49u8].len() == 1);
                }
                lower_exec(s[0]) == 116 && lower_exec(s[1]) == 114 && lower_exec(s[2]) == 117
                    && lower_exec(s[3]) == 101
            } else {
                assert(text.spec_bytes() != seq![49u8]) by {
                    assert(seq![49u8].len() == 1);
                }
                false
            }
        },
        None => false,
    }
}

/// Megabytes that one cached chunk takes.
pub const CHUNK_SIZE_MB: u64 = 4;

/// The cache size in megabytes: what is set, or half of the budget.
pub open spec fn cache_mb(value: Option<u64>, budget_mb: u64) -> u64 {
    match value {
        Some(n) => n,
        None => (budget_mb / 2) as u64,
    }
}

/// How many chunks so many megabytes of cache are made for.
pub open spec fn chunks_for(mb: u64) -> usize {
    if mb / CHUNK_SIZE_MB >= 1 {
        (mb / CHUNK_SIZE_MB) as usize
    } else {
        1usize
    }
}

/// How many chunks the cache is made for: as many as its megabytes hold, at least one.
pub fn calculate_cache_size(value: Option<&str>, budget_mb: u64) -> (r: usize)
    ensures
        ({
            let mb = cache_mb(
                match value {
                    Some(text) => number_in(text.spec_bytes()),
                    None => None,
                },
                budget_mb,
            );
            r == (if mb / CHUNK_SIZE_MB >= 1 {
                (mb / CHUNK_SIZE_MB) as usize
            } else {
                1usize
            })
        }),
        r == chunks_for(
            cache_mb(
                match value {
                    Some(text) => number_in(text.spec_bytes()),
                    None => None,
                },
                budget_mb,
            ),
        ),
{
    let set: Option<u64> = match value {
        Some(text) => parse_u64(text),
        None => None,
    };
    let mb: u64 = match set {
        Some(n) => n,
        None => budget_mb / 2,
    };
    let chunks: u64 = mb / CHUNK_SIZE_MB;
    if chunks >= 1 {
        #[verifier::truncate]
        let r: usize = chunks as usize;
        r
    } else {
        1
    }
}

} // verus!
