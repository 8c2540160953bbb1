use vstd::prelude::*;
use vstd::arithmetic::power2::{pow2, lemma_pow2_unfold, lemma2_to64};
use vstd::string::StrSliceExecFns;
use vstd::string::StringExecFns;
use crate::text::{chars_of, push_char};

verus! {

/// What a decoded frame turned out to be.
#[derive(Clone, Copy, Debug, PartialEq, Eq, Structural)]
pub enum DCCPacketType {
    Unknown,
    Invalid,
    Idle,
    Reset,
    Speed,
}

// ---------------------------------------------------------------------------
// The textual bit-stream grammar
// ---------------------------------------------------------------------------

/// Unicode `White_Space` characters: what separates the bit groups of a frame.
pub open spec fn is_ws(c: char) -> bool {
    let v = c as u32;
    (0x9 <= v && v <= 0xd) || v == 0x20 || v == 0x85 || v == 0xa0 || v == 0x1680
        || (0x2000 <= v && v <= 0x200a) || v == 0x2028 || v == 0x2029 || v == 0x202f
        || v == 0x205f || v == 0x3000
}

pub open spec fn is_bit_char(c: char) -> bool {
    c == '0' || c == '1'
}

/// Value of a binary digit character: anything but `'0'` counts as a set bit.
pub open spec fn bit_of(c: char) -> nat {
    if c == '0' {
        0
    } else {
        1
    }
}

/// Most significant bit first: the digit at position `i` stands for `2^(7 - i)`.
pub open spec fn bits_weighted(s: Seq<char>) -> nat
    decreases s.len(),
{
    if s.len() == 0 || s.len() > 8 {
        0
    } else {
        bits_weighted(s.drop_last()) + bit_of(s.last()) * pow2((8 - s.len()) as nat)
    }
}

/// A byte group starting at `q`: whitespace, a `0` start bit, whitespace and eight bits.
pub open spec fn group_at(t: Seq<char>, q: int) -> bool {
    &&& 0 <= q
    &&& q + 11 <= t.len()
    &&& is_ws(t[q])
    &&& t[q + 1] == '0'
    &&& is_ws(t[q + 2])
    &&& forall|j: int| q + 3 <= j < q + 11 ==> is_bit_char(#[trigger] t[j])
}

/// The stop bit at `q`: whitespace followed by a `1`.
pub open spec fn stop_at(t: Seq<char>, q: int) -> bool {
    &&& 0 <= q
    &&& q + 2 <= t.len()
    &&& is_ws(t[q])
    &&& t[q + 1] == '1'
}

/// Where group `k` of a frame whose preamble ends at `e` begins.
pub open spec fn group_start(e: int, k: int) -> int {
    e + 11 * k
}

/// The number of consecutive byte groups after the preamble ending at `e`,
/// counting from group `k` on, at most six in all.
pub open spec fn group_count(t: Seq<char>, e: int, k: nat) -> nat
    decreases 6 - k,
{
    if k < 6 && group_at(t, group_start(e, k as int)) {
        group_count(t, e, k + 1)
    } else {
        k
    }
}

/// At least ten `1` bits end right before `e`.
pub open spec fn preamble_before(t: Seq<char>, e: int) -> bool {
    &&& 10 <= e <= t.len()
    &&& forall|j: int| e - 10 <= j < e ==> #[trigger] t[j] == '1'
}

/// A whole frame follows the preamble that ends at `e`: three to six byte
/// groups, then the stop bit.
pub open spec fn frame_ends_at(t: Seq<char>, e: int) -> bool {
    &&& preamble_before(t, e)
    &&& group_count(t, e, 0) >= 3
    &&& stop_at(t, group_start(e, group_count(t, e, 0) as int))
}

/// The first position from `i` on where a frame's preamble ends.
pub open spec fn first_frame_from(t: Seq<char>, i: int) -> Option<int>
    decreases t.len() + 1 - i,
{
    if i < 0 || i > t.len() {
        None
    } else if frame_ends_at(t, i) {
        Some(i)
    } else {
        first_frame_from(t, i + 1)
    }
}

/// The eight bits of group `k` of the frame whose preamble ends at `e`.
pub open spec fn group_bits(t: Seq<char>, e: int, k: int) -> Seq<char> {
    t.subrange(group_start(e, k) + 3, group_start(e, k) + 11)
}

pub open spec fn frame_bytes(t: Seq<char>, e: int) -> Seq<u8> {
    Seq::new(group_count(t, e, 0), |k: int| bits_weighted(group_bits(t, e, k)) as u8)
}

/// The bytes of the first frame in the text; empty where there is none.
pub open spec fn decoded_bytes(t: Seq<char>) -> Seq<u8> {
    match first_frame_from(t, 0) {
        Some(e) => frame_bytes(t, e),
        None => Seq::empty(),
    }
}

// ---------------------------------------------------------------------------
// Classification
// ---------------------------------------------------------------------------

/// Exclusive or of all the bytes.
pub open spec fn xor_fold(b: Seq<u8>) -> u8
    decreases b.len(),
{
    if b.len() == 0 {
        0
    } else {
        xor_fold(b.drop_last()) ^ b.last()
    }
}

/// The last byte is the exclusive or of all the others.
pub open spec fn checksum_ok(b: Seq<u8>) -> bool {
    xor_fold(b.drop_last()) == b.last()
}

pub open spec fn classify(b: Seq<u8>) -> DCCPacketType {
    if b.len() < 3 {
        DCCPacketType::Unknown
    } else if !checksum_ok(b) {
        DCCPacketType::Invalid
    } else if b.len() == 3 && b[0] == 0xFF && b[1] == 0 {
        DCCPacketType::Idle
    } else if b.len() == 3 && b[0] == 0 && b[1] == 0 {
        DCCPacketType::Reset
    } else if b.len() == 3 && b[0] & 0x7F != 0 && b[1] & 0x7F != 0 {
        DCCPacketType::Speed
    } else {
        DCCPacketType::Unknown
    }
}

pub open spec fn digit_char(d: nat) -> char {
    if d == 0 {
        '0'
    } else if d == 1 {
        '1'
    } else if d == 2 {
        '2'
    } else if d == 3 {
        '3'
    } else if d == 4 {
        '4'
    } else if d == 5 {
        '5'
    } else if d == 6 {
        '6'
    } else if d == 7 {
        '7'
    } else if d == 8 {
        '8'
    } else {
        '9'
    }
}

/// Decimal digits of `n`, without leading zeros.
pub open spec fn nat_text(n: nat) -> Seq<char>
    decreases n,
{
    if n < 10 {
        seq![digit_char(n)]
    } else {
        nat_text(n / 10).push(digit_char(n % 10))
    }
}

/// Decimal notation of `v`, with a leading `-` when negative.
pub open spec fn int_text(v: int) -> Seq<char> {
    if v < 0 {
        seq!['-'] + nat_text((-v) as nat)
    } else {
        nat_text(v as nat)
    }
}

/// The speed step that the second byte of a speed command encodes.
pub open spec fn speed_step(b1: u8) -> int {
    let v = (b1 & 0x0F) as int * 2 + (b1 & 0x10) as int / 4;
    if b1 & 0x20 != 0 {
        -v
    } else {
        v
    }
}

pub open spec fn speed_text(b1: u8) -> Seq<char> {
    if b1 & 0x0F == 0 {
        "stop"@
    } else if b1 & 0x0F == 1 {
        "e-stop"@
    } else {
        int_text(speed_step(b1))
    }
}

pub open spec fn speed_description(b0: u8, b1: u8) -> Seq<char> {
    "Basic speed packet, address="@ + nat_text((b0 & 0x7F) as nat) + ", speed="@ + speed_text(b1)
}

/// The description shown for a packet with the given bytes.
pub open spec fn describe(b: Seq<u8>) -> Seq<char> {
    match classify(b) {
        DCCPacketType::Unknown => "Unknown packet"@,
        DCCPacketType::Invalid => "Invalid packet"@,
        DCCPacketType::Idle => "Idle packet"@,
        DCCPacketType::Reset => "Reset packet"@,
        DCCPacketType::Speed => speed_description(b[0], b[1]),
    }
}


// ---------------------------------------------------------------------------
// Scanning
// ---------------------------------------------------------------------------

fn is_whitespace_char(c: char) -> (r: bool)
    ensures
        r == is_ws(c),
{
    let v = c as u32;
    (0x9 <= v && v <= 0xd) || v == 0x20 || v == 0x85 || v == 0xa0 || v == 0x1680 || (0x2000 <= v
        && v <= 0x200a) || v == 0x2028 || v == 0x2029 || v == 0x202f || v == 0x205f || v == 0x3000
}

/// Reads up to eight binary digits, most significant first; any digit other
/// than `'0'` counts as a one.
pub fn byte_string_to_u8(bits: &str) -> (r: u8)
    requires
        bits@.len() <= 8,
    ensures
        r == bits_weighted(bits@),
{
    let t = chars_of(bits);
    let mut value: u8 = 0;
    let mut weight: u8 = 128;
    let mut i: usize = 0;
    proof {
        lemma2_to64();
    }
    while i < t.len()
        invariant
            t@ == bits@,
            t@.len() <= 8,
            i <= t@.len(),
            value == bits_weighted(t@.take(i as int)),
            i < 8 ==> weight == pow2((7 - i) as nat),
            i < 8 ==> value + 2 * weight <= 256,
        decreases t.len() - i,
    {
        let ghost prefix = t@.take(i as int);
        assert(t@.take(i + 1).drop_last() == prefix);
        if t[i] != '0' {
            value = value + weight;
        }
        if i < 7 {
            proof {
                lemma_pow2_unfold((7 - i) as nat);
            }
        }
        weight = weight / 2;
        i = i + 1;
    }
    assert(t@.take(i as int) == t@);
    value
}

/// Group `k` after the preamble ending at `e` is there.
fn group_at_exec(t: &Vec<char>, e: usize, k: usize) -> (r: bool)
    requires
        e <= t.len(),
        k <= 6,
    ensures
        r == group_at(t@, group_start(e as int, k as int)),
{
    if t.len() - e < 11 * k + 11 {
        return false;
    }
    let q = e + 11 * k;
    if !(is_whitespace_char(t[q]) && t[q + 1] == '0' && is_whitespace_char(t[q + 2])) {
        return false;
    }
    let mut j: usize = q + 3;
    while j < q + 11
        invariant
            q + 3 <= j <= q + 11,
            q + 11 <= t.len(),
            q == group_start(e as int, k as int),
            is_ws(t@[q as int]) && t@[q + 1] == '0' && is_ws(t@[q + 2]),
            forall|m: int| q + 3 <= m < j ==> is_bit_char(#[trigger] t@[m]),
        decreases q + 11 - j,
    {
        if t[j] != '0' && t[j] != '1' {
            assert(!is_bit_char(t@[j as int]));
            return false;
        }
        j = j + 1;
    }
    true
}

fn group_count_exec(t: &Vec<char>, e: usize) -> (n: usize)
    requires
        e <= t.len(),
    ensures
        n == group_count(t@, e as int, 0),
        n <= 6,
{
    let mut k: usize = 0;
    while k < 6 && group_at_exec(t, e, k)
        invariant
            k <= 6,
            e <= t.len(),
            group_count(t@, e as int, 0) == group_count(t@, e as int, k as nat),
        decreases 6 - k,
    {
        k = k + 1;
    }
    k
}

fn stop_at_exec(t: &Vec<char>, e: usize, k: usize) -> (r: bool)
    requires
        e <= t.len(),
        k <= 6,
    ensures
        r == stop_at(t@, group_start(e as int, k as int)),
{
    if t.len() - e < 11 * k + 2 {
        return false;
    }
    let q = e + 11 * k;
    is_whitespace_char(t[q]) && t[q + 1] == '1'
}

fn preamble_before_exec(t: &Vec<char>, e: usize) -> (r: bool)
    requires
        e <= t.len(),
    ensures
        r == preamble_before(t@, e as int),
{
    if e < 10 {
        return false;
    }
    let mut j: usize = e - 10;
    while j < e
        invariant
            e - 10 <= j <= e,
            e <= t.len(),
            forall|m: int| e - 10 <= m < j ==> #[trigger] t@[m] == '1',
        decreases e - j,
    {
        if t[j] != '1' {
            return false;
        }
        j = j + 1;
    }
    true
}

/// Where the first frame's preamble ends, and how many byte groups it has.
fn find_frame(t: &Vec<char>) -> (r: Option<(usize, usize)>)
    ensures
        r is None <==> first_frame_from(t@, 0) is None,
        r matches Some((e, n)) ==> first_frame_from(t@, 0) == Some(e as int) && n == group_count(
            t@,
            e as int,
            0,
        ) && n <= 6 && e <= t@.len(),
{
    let mut e: usize = 0;
    while e < t.len()
        invariant
            e <= t.len(),
            first_frame_from(t@, 0) == first_frame_from(t@, e as int),
        decreases t.len() - e,
    {
        if preamble_before_exec(t, e) {
            let n = group_count_exec(t, e);
            if n >= 3 && stop_at_exec(t, e, n) {
                return Some((e, n));
            }
        }
        e = e + 1;
    }
    assert(!frame_ends_at(t@, t@.len() as int));
    assert(first_frame_from(t@, t@.len() as int + 1) is None);
    None
}

/// The frame that the search finds is a frame, at or after where it starts.
pub proof fn lemma_first_frame_ends(t: Seq<char>, i: int)
    ensures
        first_frame_from(t, i) matches Some(e) ==> frame_ends_at(t, e) && i <= e <= t.len(),
    decreases t.len() + 1 - i,
{
    if 0 <= i <= t.len() && !frame_ends_at(t, i) {
        lemma_first_frame_ends(t, i + 1);
    }
}

proof fn lemma_group_present(t: Seq<char>, e: int, j: nat, k: nat)
    requires
        j <= k < group_count(t, e, j),
    ensures
        group_at(t, group_start(e, k as int)),
    decreases k - j,
{
    if j < k {
        lemma_group_present(t, e, j + 1, k);
    }
}

/// The bytes of the first frame in `raw`: the bit groups that follow a
/// preamble of at least ten ones, three to six of them, each after a `0`
/// start bit, closed by a `1` stop bit. Empty where no frame is found.
pub fn extract_bytes(raw: &str) -> (r: Vec<u8>)
    ensures
        r@ == decoded_bytes(raw@),
        r@.len() == 0 || 3 <= r@.len() <= 6,
{
    let t = chars_of(raw);
    let mut data: Vec<u8> = Vec::new();
    match find_frame(&t) {
        None => {},
        Some((e, n)) => {
            let mut k: usize = 0;
            while k < n
                invariant
                    t@ == raw@,
                    first_frame_from(t@, 0) == Some(e as int),
                    n == group_count(t@, e as int, 0),
                    n <= 6,
                    e <= t.len(),
                    k <= n,
                    data@ == frame_bytes(t@, e as int).take(k as int),
                decreases n - k,
            {
                proof {
                    lemma_group_present(t@, e as int, 0, k as nat);
                }
                let start = e + 11 * k + 3;
                let group = raw.substring_char(start, start + 8);
                assert(group@ == group_bits(t@, e as int, k as int));
                let b = byte_string_to_u8(group);
                data.push(b);
                assert(data@ == frame_bytes(t@, e as int).take(k + 1));
                k = k + 1;
            }
            assert(data@ == frame_bytes(t@, e as int));
            proof {
                lemma_first_frame_ends(t@, 0);
            }
        },
    }
    data
}

fn xor_prefix(bytes: &[u8], n: usize) -> (r: u8)
    requires
        n <= bytes@.len(),
    ensures
        r == xor_fold(bytes@.take(n as int)),
{
    let mut acc: u8 = 0;
    let mut i: usize = 0;
    assert(bytes@.take(0) == Seq::<u8>::empty());
    while i < n
        invariant
            n <= bytes@.len(),
            i <= n,
            acc == xor_fold(bytes@.take(i as int)),
        decreases n - i,
    {
        assert(bytes@.take(i + 1).drop_last() == bytes@.take(i as int));
        acc = acc ^ bytes[i];
        i = i + 1;
    }
    acc
}

/// The exclusive or of all the bytes.
pub fn xor_checksum(bytes: &[u8]) -> (r: u8)
    ensures
        r == xor_fold(bytes@),
{
    let r = xor_prefix(bytes, bytes.len());
    assert(bytes@.take(bytes@.len() as int) == bytes@);
    r
}

fn digit(d: u32) -> (c: char)
    requires
        d < 10,
    ensures
        c == digit_char(d as nat),
{
    if d == 0 {
        '0'
    } else if d == 1 {
        '1'
    } else if d == 2 {
        '2'
    } else if d == 3 {
        '3'
    } else if d == 4 {
        '4'
    } else if d == 5 {
        '5'
    } else if d == 6 {
        '6'
    } else if d == 7 {
        '7'
    } else if d == 8 {
        '8'
    } else {
        '9'
    }
}

/// Decimal digits of `n`.
pub fn nat_decimal(n: u32) -> (r: String)
    ensures
        r@ == nat_text(n as nat),
    decreases n,
{
    let mut s = if n < 10 {
        String::new()
    } else {
        nat_decimal(n / 10)
    };
    push_char(&mut s, digit(n % 10));
    s
}

/// Decimal notation of `v`, with a leading `-` when negative.
pub fn int_decimal(v: i32) -> (r: String)
    ensures
        r@ == int_text(v as int),
{
    if v < 0 {
        let magnitude = (0 - (v as i64)) as u32;
        let digits = nat_decimal(magnitude);
        let mut s = String::new();
        push_char(&mut s, '-');
        s.append(digits.as_str());
        s
    } else {
        nat_decimal(v as u32)
    }
}

/// Checks the trailing checksum byte of a decoded frame and tells what the
/// packet is, with the description shown for it.
pub fn classify_bytes(data: &[u8]) -> (r: (DCCPacketType, String))
    ensures
        r.0 == classify(data@),
        r.1@ == describe(data@),
{
    if data.len() < 3 {
        return (DCCPacketType::Unknown, String::from_str("Unknown packet"));
    }
    let last = data.len() - 1;
    let error_byte = xor_prefix(data, last);
    assert(data@.take(last as int) == data@.drop_last());
    if error_byte != data[last] {
        return (DCCPacketType::Invalid, String::from_str("Invalid packet"));
    }
    if data.len() == 3 && data[0] == 0xFF && data[1] == 0 {
        return (DCCPacketType::Idle, String::from_str("Idle packet"));
    }
    if data.len() == 3 && data[0] == 0 && data[1] == 0 {
        return (DCCPacketType::Reset, String::from_str("Reset packet"));
    }
    if data.len() == 3 && data[0] & 0x7F != 0 && data[1] & 0x7F != 0 {
        let b1 = data[1];
        let address = data[0] & 0x7F;
        let step = b1 & 0x0F;
        let speed = if step == 0 {
            String::from_str("stop")
        } else if step == 1 {
            String::from_str("e-stop")
        } else {
            assert(b1 & 0x0F <= 15 && b1 & 0x10 <= 16) by (bit_vector);
            let mut value: i32 = step as i32 * 2 + (b1 & 0x10) as i32 / 4;
            if b1 & 0x20 != 0 {
                value = -value;
            }
            int_decimal(value)
        };
        let mut description = String::from_str("Basic speed packet, address=");
        let address_text = nat_decimal(address as u32);
        description.append(address_text.as_str());
        description.append(", speed=");
        description.append(speed.as_str());
        return (DCCPacketType::Speed, description);
    }
    (DCCPacketType::Unknown, String::from_str("Unknown packet"))
}

/// Decodes the first frame of `raw` and classifies it.
pub fn analyze(raw: &str) -> (r: (DCCPacketType, String))
    ensures
        r.0 == classify(decoded_bytes(raw@)),
        r.1@ == describe(decoded_bytes(raw@)),
{
    let data = extract_bytes(raw);
    classify_bytes(data.as_slice())
}

/// Fewer than three bytes never make a packet that is known.
pub proof fn lemma_short_is_unknown(b: Seq<u8>)
    requires
        b.len() < 3,
    ensures
        classify(b) == DCCPacketType::Unknown,
{
}

/// Three bytes or more whose last byte is not the exclusive or of the others
/// are always an invalid packet, whatever else they hold.
pub proof fn lemma_bad_checksum_is_invalid(b: Seq<u8>)
    requires
        b.len() >= 3,
        xor_fold(b.drop_last()) != b.last(),
    ensures
        classify(b) == DCCPacketType::Invalid,
{
}

// ---------------------------------------------------------------------------
// Packets
// ---------------------------------------------------------------------------

/// One received line, what it was classified as, and its description.
pub struct DCCPacket {
    raw: String,
    pub packet_type: DCCPacketType,
    description: String,
}

pub struct PacketModel {
    pub raw: Seq<char>,
    pub kind: DCCPacketType,
    pub description: Seq<char>,
}

/// The packet that a received line makes.
pub open spec fn packet_model(raw: Seq<char>) -> PacketModel {
    PacketModel {
        raw,
        kind: classify(decoded_bytes(raw)),
        description: describe(decoded_bytes(raw)),
    }
}

impl View for DCCPacket {
    type V = PacketModel;

    closed spec fn view(&self) -> PacketModel {
        PacketModel { raw: self.raw@, kind: self.packet_type, description: self.description@ }
    }
}

impl DCCPacket {
    pub fn new(raw: &str) -> (p: DCCPacket)
        ensures
            p@ == packet_model(raw@),
    {
        let (packet_type, description) = analyze(raw);
        DCCPacket { packet_type, raw: String::from_str(raw), description }
    }

    /// The line as it was received.
    pub fn raw(&self) -> (r: &str)
        ensures
            r@ == self@.raw,
    {
        self.raw.as_str()
    }

    pub fn description(&self) -> (r: &str)
        ensures
            r@ == self@.description,
    {
        self.description.as_str()
    }

    pub fn kind(&self) -> (r: DCCPacketType)
        ensures
            r == self@.kind,
    {
        self.packet_type
    }
}

} // verus!
