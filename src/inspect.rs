use vstd::prelude::*;
use vstd::string::StringSliceAdditionalSpecFns;

verus! {

/// A sub-command of the chain inspector.
#[derive(Clone, Debug, PartialEq, Eq)]
pub enum InspectSubCmd {
    /// Decode a block: its hash (no `0x` prefix), its number, or its
    /// `0x`-prefixed hex-encoded bytes.
    Block { input: String },
    /// Decode an extrinsic: `{block}:{index}` or its `0x`-prefixed
    /// hex-encoded bytes.
    Extrinsic { input: String },
}

/// A block to retrieve.
#[derive(Clone, Debug, PartialEq, Eq)]
pub enum BlockAddress {
    /// By its 20-byte hash.
    Hash(Vec<u8>),
    /// By its number.
    Number(u64),
    /// Raw encoded bytes.
    Bytes(Vec<u8>),
}

/// An extrinsic to decode.
#[derive(Clone, Debug, PartialEq, Eq)]
pub enum ExtrinsicAddress {
    /// The extrinsic at an index of an existing block.
    Block(BlockAddress, usize),
    /// Raw encoded bytes.
    Bytes(Vec<u8>),
}

/// Why a decimal integer could not be read.
#[derive(Clone, Copy, Debug, PartialEq, Eq, Structural)]
pub enum IntError {
    Empty,
    InvalidDigit,
    Overflow,
}

/// The value of a hex digit, or `None`.
pub open spec fn hex_value(b: u8) -> Option<u8> {
    if 48 <= b <= 57 {
        Some((b - 48) as u8)
    } else if 97 <= b <= 102 {
        Some((b - 87) as u8)
    } else if 65 <= b <= 70 {
        Some((b - 55) as u8)
    } else {
        None
    }
}

pub open spec fn all_hex(s: Seq<u8>) -> bool {
    forall|i: int| 0 <= i < s.len() ==> (#[trigger] hex_value(s[i])) is Some
}

/// Bytes from hex digits, two per byte; an odd leading digit makes a byte alone.
pub open spec fn hex_bytes(d: Seq<u8>) -> Seq<u8>
    decreases d.len(),
{
    if d.len() == 0 {
        Seq::empty()
    } else if d.len() == 1 {
        seq![hex_value(d[0])->Some_0]
    } else {
        hex_bytes(d.subrange(0, d.len() - 2)).push(
            (hex_value(d[d.len() - 2])->Some_0 * 16 + hex_value(d[d.len() - 1])->Some_0) as u8,
        )
    }
}

/// The bytes that a `0x`-prefixed hex string encodes.
pub open spec fn from_hex_spec(s: Seq<u8>) -> Option<Seq<u8>> {
    if s.len() >= 2 && s[0] == 48 && s[1] == 120 && all_hex(s.subrange(2, s.len() as int)) {
        Some(hex_bytes(s.subrange(2, s.len() as int)))
    } else {
        None
    }
}

/// The 20 bytes that 40 hex digits (no prefix) encode.
pub open spec fn hash_spec(s: Seq<u8>) -> Option<Seq<u8>> {
    if s.len() == 40 && all_hex(s) {
        Some(hex_bytes(s))
    } else {
        None
    }
}

/// The value of a string of decimal digits.
pub open spec fn decimal_value(d: Seq<u8>) -> int
    decreases d.len(),
{
    if d.len() == 0 {
        0
    } else {
        decimal_value(d.drop_last()) * 10 + (d.last() - 48)
    }
}

pub open spec fn all_decimal(d: Seq<u8>) -> bool {
    forall|i: int| 0 <= i < d.len() ==> 48 <= #[trigger] d[i] <= 57
}

/// An unsigned integer not above `max`, written in decimal with an optional `+`.
pub open spec fn unsigned_spec(s: Seq<u8>, max: int) -> Result<int, IntError> {
    let d = if s.len() > 0 && s[0] == 43 {
        s.subrange(1, s.len() as int)
    } else {
        s
    };
    if s.len() == 0 {
        Err(IntError::Empty)
    } else if d.len() == 0 || !all_decimal(d) {
        Err(IntError::InvalidDigit)
    } else if decimal_value(d) > max {
        Err(IntError::Overflow)
    } else {
        Ok(decimal_value(d))
    }
}

/// Whether `b` separates a block from an extrinsic index.
pub open spec fn is_separator(b: u8) -> bool {
    b == 46 || b == 58 || b == 32
}

/// The position of the first separator in `s` from `start` on, or its length.
pub open spec fn next_separator(s: Seq<u8>, start: int) -> int
    decreases s.len() - start,
{
    if start >= s.len() {
        s.len() as int
    } else if is_separator(s[start]) {
        start
    } else {
        next_separator(s, start + 1)
    }
}

/// The block address a string names: a hash, else a number, else bytes.
pub open spec fn block_address_spec(s: Seq<u8>) -> Option<BlockAddressSpec> {
    if hash_spec(s) is Some {
        Some(BlockAddressSpec::Hash(hash_spec(s)->Some_0))
    } else if unsigned_spec(s, u64::MAX as int) is Ok {
        Some(BlockAddressSpec::Number(unsigned_spec(s, u64::MAX as int)->Ok_0))
    } else if from_hex_spec(s) is Some {
        Some(BlockAddressSpec::Bytes(from_hex_spec(s)->Some_0))
    } else {
        None
    }
}

/// The mathematical form of a block address.
pub ghost enum BlockAddressSpec {
    Hash(Seq<u8>),
    Number(int),
    Bytes(Seq<u8>),
}

impl BlockAddress {
    pub open spec fn spec(&self) -> BlockAddressSpec {
        match self {
            BlockAddress::Hash(h) => BlockAddressSpec::Hash(h@),
            BlockAddress::Number(n) => BlockAddressSpec::Number(*n as int),
            BlockAddress::Bytes(b) => BlockAddressSpec::Bytes(b@),
        }
    }
}

fn hex_digit(b: u8) -> (r: Option<u8>)
    ensures
        r == hex_value(b),
{
    if 48 <= b && b <= 57 {
        Some(b - 48)
    } else if 97 <= b && b <= 102 {
        Some(b - 87)
    } else if 65 <= b && b <= 70 {
        Some(b - 55)
    } else {
        None
    }
}

/// Decodes the hex digits `s[start..]`, two per byte with an odd leading digit alone.
fn decode_hex(s: &[u8], start: usize) -> (r: Option<Vec<u8>>)
    requires
        start <= s@.len(),
    ensures
        r is Some <==> all_hex(s@.subrange(start as int, s@.len() as int)),
        r matches Some(v) ==> v@ == hex_bytes(s@.subrange(start as int, s@.len() as int)),
{
    let ghost d = s@.subrange(start as int, s@.len() as int);
    let n = s.len() - start;
    let mut out: Vec<u8> = Vec::new();
    let mut i: usize = start;
    if n % 2 == 1 {
        match hex_digit(s[start]) {
            None => {
                assert(hex_value(d[0]) is None);
                return None;
            },
            Some(v) => {
                out.push(v);
            },
        }
        i = start + 1;
        proof {
            assert(d.subrange(0, 1) =~= seq![d[0]]);
            assert(hex_bytes(d.subrange(0, 1)) == seq![hex_value(d[0])->Some_0]);
        }
    }
    while i < s.len()
        invariant
            start <= i <= s@.len(),
            d == s@.subrange(start as int, s@.len() as int),
            (i - start) % 2 == (s@.len() - start) % 2 - (s@.len() - i) % 2 + 0,
            (s@.len() - i) % 2 == 0,
            all_hex(d.subrange(0, i - start)),
            out@ == hex_bytes(d.subrange(0, i - start)),
        decreases s@.len() - i,
    {
        let hi = hex_digit(s[i]);
        let lo = hex_digit(s[i + 1]);
        match (hi, lo) {
            (Some(h), Some(l)) => {
                proof {
                    let p = d.subrange(0, i + 2 - start);
                    assert(p.subrange(0, p.len() - 2) =~= d.subrange(0, i - start));
                    assert(p[p.len() - 2] == s@[i as int]);
                    assert(p[p.len() - 1] == s@[i + 1]);
                    assert forall|k: int| 0 <= k < p.len() implies (#[trigger] hex_value(p[k])) is Some by {
                        if k < i - start {
                            assert(p[k] == d.subrange(0, i - start)[k]);
                        }
                    }
                }
                out.push(h * 16 + l);
                i = i + 2;
            },
            _ => {
                proof {
                    if hi is None {
                        assert(hex_value(d[i - start]) is None);
                    } else {
                        assert(hex_value(d[i + 1 - start]) is None);
                    }
                }
                return None;
            },
        }
    }
    proof {
        assert(d.subrange(0, i - start) =~= d);
    }
    Some(out)
}

/// The mathematical form of an extrinsic address.
pub ghost enum ExtrinsicAddressSpec {
    Block(BlockAddressSpec, int),
    Bytes(Seq<u8>),
}

impl ExtrinsicAddress {
    pub open spec fn spec(&self) -> ExtrinsicAddressSpec {
        match self {
            ExtrinsicAddress::Block(b, i) => ExtrinsicAddressSpec::Block(b.spec(), *i as int),
            ExtrinsicAddress::Bytes(v) => ExtrinsicAddressSpec::Bytes(v@),
        }
    }
}

/// The message of a string that names no block.
pub open spec fn block_error_message(s: Seq<u8>) -> Seq<char> {
    if s.len() >= 2 && s[0] == 48 && s[1] == 120 {
        "Given string does not look like hash or number. It could not be parsed as bytes either: invalid hex character"@
    } else {
        "Given string does not look like hash or number. It could not be parsed as bytes either: 0x prefix is missing"@
    }
}

/// The message of an extrinsic index that could not be read.
pub open spec fn index_error_message(e: IntError) -> Seq<char> {
    match e {
        IntError::Empty => "Invalid index format: cannot parse integer from empty string"@,
        IntError::InvalidDigit => "Invalid index format: invalid digit found in string"@,
        IntError::Overflow => "Invalid index format: number too large to fit in target type"@,
    }
}

/// The extrinsic address a string names: hex-encoded bytes, else a block and
/// an index separated by `.`, `:` or a space; or the message of what is wrong.
pub open spec fn extrinsic_address_spec(s: Seq<u8>) -> Result<ExtrinsicAddressSpec, Seq<char>> {
    let e1 = next_separator(s, 0);
    let first = s.subrange(0, e1);
    let e2 = next_separator(s, e1 + 1);
    let second = s.subrange(e1 + 1, e2);
    if from_hex_spec(s) is Some {
        Ok(ExtrinsicAddressSpec::Bytes(from_hex_spec(s)->Some_0))
    } else if block_address_spec(first) is None {
        Err(block_error_message(first))
    } else if e1 == s.len() {
        Err("Extrinsic index missing: example \"5:0\""@)
    } else if unsigned_spec(second, usize::MAX as int) is Err {
        Err(index_error_message(unsigned_spec(second, usize::MAX as int)->Err_0))
    } else {
        Ok(
            ExtrinsicAddressSpec::Block(
                block_address_spec(first)->Some_0,
                unsigned_spec(second, usize::MAX as int)->Ok_0,
            ),
        )
    }
}

/// A copy of `s[start..end]`.
fn copy_range(s: &[u8], start: usize, end: usize) -> (r: Vec<u8>)
    requires
        start <= end <= s@.len(),
    ensures
        r@ == s@.subrange(start as int, end as int),
{
    let mut out: Vec<u8> = Vec::new();
    let mut i: usize = start;
    while i < end
        invariant
            start <= i <= end <= s@.len(),
            out@ == s@.subrange(start as int, i as int),
        decreases end - i,
    {
        out.push(s[i]);
        i += 1;
        proof {
            assert(out@ =~= s@.subrange(start as int, i as int));
        }
    }
    out
}

/// Reads an unsigned decimal integer not above `max`, with an optional `+`.
pub fn parse_unsigned(s: &[u8], max: u64) -> (r: Result<u64, IntError>)
    ensures
        match unsigned_spec(s@, max as int) {
            Ok(v) => r == Ok::<u64, IntError>(v as u64),
            Err(e) => r == Err::<u64, IntError>(e),
        },
        r matches Ok(n) ==> unsigned_spec(s@, max as int) == Ok::<int, IntError>(n as int),
{
    if s.len() == 0 {
        return Err(IntError::Empty);
    }
    let start: usize = if s[0] == 43 {
        1
    } else {
        0
    };
    let ghost d = s@.subrange(start as int, s@.len() as int);
    proof {
        if start == 0 {
            assert(d =~= s@);
        }
    }
    if start == s.len() {
        return Err(IntError::InvalidDigit);
    }
    let mut value: u64 = 0;
    let mut over = false;
    let mut i: usize = start;
    while i < s.len()
        invariant
            start <= i <= s@.len(),
            d == s@.subrange(start as int, s@.len() as int),
            d == (if s@.len() > 0 && s@[0] == 43 {
                s@.subrange(1, s@.len() as int)
            } else {
                s@
            }),
            s@.len() > 0,
            all_decimal(d.subrange(0, i - start)),
            !over ==> value == decimal_value(d.subrange(0, i - start)) && value <= max,
            over ==> decimal_value(d.subrange(0, i - start)) > max,
        decreases s@.len() - i,
    {
        let b = s[i];
        if b < 48 || b > 57 {
            proof {
                assert(d[i - start] == b);
                assert(!all_decimal(d));
            }
            return Err(IntError::InvalidDigit);
        }
        proof {
            let p = d.subrange(0, i + 1 - start);
            assert(p.drop_last() =~= d.subrange(0, i - start));
            assert(p.last() == b);
            assert forall|k: int| 0 <= k < p.len() implies 48 <= #[trigger] p[k] <= 57 by {
                if k < i - start {
                    assert(p[k] == d.subrange(0, i - start)[k]);
                }
            }
            assert(decimal_value(p) == decimal_value(d.subrange(0, i - start)) * 10 + (b - 48));
            if over {
                assert(decimal_value(d.subrange(0, i - start)) * 10 + (b - 48) > max) by (nonlinear_arith)
                    requires
                        decimal_value(d.subrange(0, i - start)) > max,
                        max >= 0,
                        b >= 48,
                ;
            }
        }
        if !over {
            if (b - 48) as u64 > max {
                proof {
                    assert(decimal_value(d.subrange(0, i - start)) * 10 + (b - 48) > max) by (nonlinear_arith)
                        requires
                            decimal_value(d.subrange(0, i - start)) >= 0,
                            b - 48 > max,
                    ;
                }
                over = true;
            } else if value > (max - (b - 48) as u64) / 10 {
                proof {
                    let q = (max - (b - 48)) as int;
                    vstd::arithmetic::div_mod::lemma_fundamental_div_mod(q, 10);
                    vstd::arithmetic::div_mod::lemma_mod_bound(q, 10);
                    assert(value * 10 + (b - 48) > max) by (nonlinear_arith)
                        requires
                            value > q / 10,
                            q == 10 * (q / 10) + q % 10,
                            q % 10 < 10,
                            q == max - (b - 48),
                    ;
                }
                over = true;
            } else {
                proof {
                    let q = (max - (b - 48)) as int;
                    vstd::arithmetic::div_mod::lemma_fundamental_div_mod(q, 10);
                    vstd::arithmetic::div_mod::lemma_mod_bound(q, 10);
                    assert(value * 10 + (b - 48) <= max) by (nonlinear_arith)
                        requires
                            value <= q / 10,
                            q == 10 * (q / 10) + q % 10,
                            q % 10 >= 0,
                            q == max - (b - 48),
                    ;
                }
                value = value * 10 + (b - 48) as u64;
            }
        }
        i += 1;
    }
    proof {
        assert(d.subrange(0, i - start) =~= d);
    }
    if over {
        Err(IntError::Overflow)
    } else {
        Ok(value)
    }
}

/// The bytes a `0x`-prefixed hex string encodes.
pub fn from_hex(s: &[u8]) -> (r: Option<Vec<u8>>)
    ensures
        match from_hex_spec(s@) {
            Some(v) => r matches Some(b) && b@ == v,
            None => r is None,
        },
{
    if s.len() < 2 || s[0] != 48 || s[1] != 120 {
        return None;
    }
    decode_hex(s, 2)
}

impl BlockAddress {
    /// The block address that the bytes `s` name, if any.
    pub fn parse(s: &[u8]) -> (r: Option<BlockAddress>)
        ensures
            match block_address_spec(s@) {
                Some(a) => r matches Some(b) && b.spec() == a,
                None => r is None,
            },
    {
        if s.len() == 40 {
            match decode_hex(s, 0) {
                Some(h) => {
                    proof {
                        assert(s@.subrange(0, 40) =~= s@);
                    }
                    return Some(BlockAddress::Hash(h));
                },
                None => {
                    proof {
                        assert(s@.subrange(0, 40) =~= s@);
                    }
                },
            }
        }
        match parse_unsigned(s, u64::MAX) {
            Ok(n) => {
                return Some(BlockAddress::Number(n));
            },
            Err(_) => {},
        }
        match from_hex(s) {
            Some(b) => Some(BlockAddress::Bytes(b)),
            None => None,
        }
    }

    fn error_message(s: &[u8]) -> (r: String)
        ensures
            r@ == block_error_message(s@),
    {
        if s.len() >= 2 && s[0] == 48 && s[1] == 120 {
            "Given string does not look like hash or number. It could not be parsed as bytes either: invalid hex character".to_owned()
        } else {
            "Given string does not look like hash or number. It could not be parsed as bytes either: 0x prefix is missing".to_owned()
        }
    }

    /// Reads a block address: a hash, else a number, else hex-encoded bytes.
    pub fn from_str(s: &str) -> (r: Result<BlockAddress, String>)
        ensures
            match block_address_spec(s.spec_bytes()) {
                Some(a) => r matches Ok(b) && b.spec() == a,
                None => r matches Err(e) && e@ == block_error_message(s.spec_bytes()),
            },
    {
        let b = s.as_bytes();
        match BlockAddress::parse(b) {
            Some(a) => Ok(a),
            None => Err(BlockAddress::error_message(b)),
        }
    }
}

impl ExtrinsicAddress {
    /// Reads an extrinsic address: hex-encoded bytes, else a block and an
    /// index separated by `.`, `:` or a space.
    #[verifier::rlimit(50)]
    pub fn from_str(s: &str) -> (r: Result<ExtrinsicAddress, String>)
        ensures
            match extrinsic_address_spec(s.spec_bytes()) {
                Ok(a) => r matches Ok(x) && x.spec() == a,
                Err(m) => r matches Err(e) && e@ == m,
            },
    {
        let b = s.as_bytes();
        match from_hex(b) {
            Some(v) => {
                return Ok(ExtrinsicAddress::Bytes(v));
            },
            None => {},
        }
        let e1 = separator_from(b, 0);
        let first = copy_range(b, 0, e1);
        let block = match BlockAddress::parse(first.as_slice()) {
            Some(a) => a,
            None => {
                return Err(BlockAddress::error_message(first.as_slice()));
            },
        };
        if e1 == b.len() {
            return Err("Extrinsic index missing: example \"5:0\"".to_owned());
        }
        let e2 = separator_from(b, e1 + 1);
        let second = copy_range(b, e1 + 1, e2);
        match parse_unsigned(second.as_slice(), usize::MAX as u64) {
            Ok(n) => Ok(ExtrinsicAddress::Block(block, n as usize)),
            Err(IntError::Empty) => Err(
                "Invalid index format: cannot parse integer from empty string".to_owned(),
            ),
            Err(IntError::InvalidDigit) => Err(
                "Invalid index format: invalid digit found in string".to_owned(),
            ),
            Err(IntError::Overflow) => Err(
                "Invalid index format: number too large to fit in target type".to_owned(),
            ),
        }
    }
}

/// The position of the first separator in `s` from `start` on, or its length.
fn separator_from(s: &[u8], start: usize) -> (r: usize)
    requires
        start <= s@.len(),
    ensures
        r == next_separator(s@, start as int),
        start <= r <= s@.len(),
{
    let mut i: usize = start;
    while i < s.len()
        invariant
            start <= i <= s@.len(),
            next_separator(s@, start as int) == next_separator(s@, i as int),
        decreases s@.len() - i,
    {
        if s[i] == 46 || s[i] == 58 || s[i] == 32 {
            return i;
        }
        i += 1;
    }
    i
}

} // verus!
