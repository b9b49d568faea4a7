//! The libudev-compatible uevent wire format: a 40-byte header followed by a
//! block of NUL-terminated `KEY=VALUE` records, the first two always being
//! `ACTION=` and `SEQNUM=`. The layout must stay bit-compatible with what
//! libudev consumers expect.

use vstd::prelude::*;
use vstd::bytes::spec_u32_to_le_bytes;
use vstd::bytes::u32_to_le_bytes;
use vstd::string::StringSliceAdditionalSpecFns;
use vstd::utf8::encode_utf8;

verus! {

/// Size in bytes of the fixed message header.
pub const UEVENT_HEADER_SIZE: u32 = 40;

/// What MurmurHash2 (as provided by the `murmur2` crate) returns for the
/// given data and seed.
pub uninterp spec fn murmur2_of(data: Seq<u8>, seed: u32) -> u32;

/// Relies on murmur2::murmur2, the endianness-independent MurmurHash2: its
/// result is a function of the data bytes and the seed alone.
#[verifier::external_body]
fn murmur2_hash(data: &[u8], seed: u32) -> (r: u32)
    ensures
        r == murmur2_of(data@, seed),
{
    murmur2::murmur2(data, seed)
}

/// The big-endian (network order) byte encoding of a `u32`.
pub open spec fn spec_u32_to_be_bytes(x: u32) -> Seq<u8> {
    seq![
        ((x >> 24) & 0xff) as u8,
        ((x >> 16) & 0xff) as u8,
        ((x >> 8) & 0xff) as u8,
        (x & 0xff) as u8,
    ]
}

fn u32_to_be_bytes(x: u32) -> (r: Vec<u8>)
    ensures
        r@ == spec_u32_to_be_bytes(x),
{
    proof {
        assert((x >> 24) & 0xff < 256 && (x >> 16) & 0xff < 256 && (x >> 8) & 0xff < 256 && x
            & 0xff < 256) by (bit_vector);
    }
    let mut r: Vec<u8> = Vec::new();
    r.push(((x >> 24) & 0xff) as u8);
    r.push(((x >> 16) & 0xff) as u8);
    r.push(((x >> 8) & 0xff) as u8);
    r.push((x & 0xff) as u8);
    proof {
        assert(r@ =~= spec_u32_to_be_bytes(x));
    }
    r
}

/// The decimal digit characters of `n`, as ASCII bytes, no leading zeros.
pub open spec fn dec_bytes(n: nat) -> Seq<u8>
    decreases n,
{
    if n < 10 {
        seq![(48 + n) as u8]
    } else {
        dec_bytes(n / 10).push((48 + n % 10) as u8)
    }
}

/// Every byte of a decimal rendering is an ASCII digit.
pub proof fn lemma_dec_bytes_digits(n: nat)
    ensures
        dec_bytes(n).len() >= 1,
        forall|i: int| 0 <= i < dec_bytes(n).len() ==> 48 <= #[trigger] dec_bytes(n)[i] <= 57,
    decreases n,
{
    if n >= 10 {
        lemma_dec_bytes_digits(n / 10);
    }
}

pub(crate) fn u64_to_dec_bytes(n: u64) -> (r: Vec<u8>)
    ensures
        r@ == dec_bytes(n as nat),
    decreases n,
{
    let mut r: Vec<u8>;
    if n < 10 {
        r = Vec::new();
        r.push(48 + n as u8);
        proof {
            assert(r@ =~= dec_bytes(n as nat));
        }
    } else {
        assert(n / 10 < n && n / 10 >= 1) by (nonlinear_arith)
            requires
                n >= 10,
        ;
        r = u64_to_dec_bytes(n / 10);
        r.push(48 + (n % 10) as u8);
        proof {
            assert(n % 10 < 10) by (nonlinear_arith);
            assert(r@ =~= dec_bytes(n as nat));
        }
    }
    r
}

/// The decimal digit characters of `n`, no leading zeros.
pub open spec fn dec_chars(n: nat) -> Seq<char> {
    dec_bytes(n).map_values(|b: u8| b as char)
}

/// The decimal rendering of `n`.
pub fn u64_dec_string(n: u64) -> (r: String)
    ensures
        r@ == dec_chars(n as nat),
{
    let bytes = u64_to_dec_bytes(n);
    let m = bytes.len();
    let mut chars: Vec<char> = Vec::new();
    for i in 0..m
        invariant
            m == bytes@.len(),
            bytes@ == dec_bytes(n as nat),
            chars@ =~= dec_chars(n as nat).take(i as int),
    {
        chars.push(bytes[i] as char);
        proof {
            assert(chars@ =~= dec_chars(n as nat).take(i + 1));
        }
    }
    proof {
        assert(dec_chars(n as nat).take(m as int) =~= dec_chars(n as nat));
    }
    crate::escape::chars_to_string(&chars)
}

/// Append every byte of `src` to `dst`.
fn push_bytes(dst: &mut Vec<u8>, src: &[u8])
    ensures
        final(dst)@ == old(dst)@ + src@,
{
    let n = src.len();
    for i in 0..n
        invariant
            n == src@.len(),
            dst@ == old(dst)@ + src@.subrange(0, i as int),
    {
        dst.push(src[i]);
        proof {
            assert(dst@ =~= old(dst)@ + src@.subrange(0, i + 1));
        }
    }
    proof {
        assert(src@.subrange(0, n as int) =~= src@);
    }
}

/// `"libudev\0"`, the prefix distinguishing libudev from kernel messages.
pub open spec fn libudev_prefix() -> Seq<u8> {
    seq![108u8, 105u8, 98u8, 117u8, 100u8, 101u8, 118u8, 0u8]
}

/// `"ACTION"`, as bytes.
pub open spec fn action_key() -> Seq<u8> {
    seq![65u8, 67u8, 84u8, 73u8, 79u8, 78u8]
}

/// `"SEQNUM"`, as bytes.
pub open spec fn seqnum_key() -> Seq<u8> {
    seq![83u8, 69u8, 81u8, 78u8, 85u8, 77u8]
}

/// The fixed 40-byte header: the `"libudev\0"` prefix, the magic
/// `0xFEEDCAFE` in network order, the header size and properties offset
/// (both 40, native little-endian), the properties length, the two property
/// hashes in network order, and an all-ones tag bloom filter.
pub open spec fn uevent_header(props_len: u32, subsystem_hash: u32, devtype_hash: u32) -> Seq<u8> {
    libudev_prefix() + seq![0xfeu8, 0xedu8, 0xcau8, 0xfeu8] + spec_u32_to_le_bytes(40)
        + spec_u32_to_le_bytes(40) + spec_u32_to_le_bytes(props_len) + spec_u32_to_be_bytes(
        subsystem_hash,
    ) + spec_u32_to_be_bytes(devtype_hash) + seq![0xffu8, 0xffu8, 0xffu8, 0xffu8] + seq![
        0xffu8,
        0xffu8,
        0xffu8,
        0xffu8,
    ]
}

/// One `KEY=VALUE` record followed by a NUL byte.
pub open spec fn prop_record(k: Seq<u8>, v: Seq<u8>) -> Seq<u8> {
    k + seq![61u8] + v + seq![0u8]
}

/// The records of the caller-supplied properties, in order, with any
/// `ACTION` or `SEQNUM` property dropped (those two are regenerated).
pub open spec fn props_block(props: Seq<(Seq<char>, Seq<char>)>) -> Seq<u8>
    decreases props.len(),
{
    if props.len() == 0 {
        Seq::empty()
    } else {
        let (k, v) = props[0];
        (if encode_utf8(k) == action_key() || encode_utf8(k) == seqnum_key() {
            Seq::<u8>::empty()
        } else {
            prop_record(encode_utf8(k), encode_utf8(v))
        }) + props_block(props.drop_first())
    }
}

/// The whole properties buffer: the `ACTION=` record, the `SEQNUM=` record,
/// then the remaining caller-supplied records.
pub open spec fn uevent_payload(action: Seq<char>, seqnum: nat, props: Seq<(Seq<char>, Seq<char>)>) -> Seq<u8> {
    prop_record(action_key(), encode_utf8(action)) + prop_record(seqnum_key(), dec_bytes(seqnum))
        + props_block(props)
}

/// The complete wire message for one emission.
pub open spec fn uevent_message(
    action: Seq<char>,
    seqnum: nat,
    subsystem: Option<Seq<char>>,
    devtype: Option<Seq<char>>,
    props: Seq<(Seq<char>, Seq<char>)>,
) -> Seq<u8> {
    let payload = uevent_payload(action, seqnum, props);
    let sub_hash = match subsystem {
        Some(s) => murmur2_of(encode_utf8(s), 0),
        None => 0,
    };
    let dev_hash = match devtype {
        Some(s) => murmur2_of(encode_utf8(s), 0),
        None => 0,
    };
    uevent_header(payload.len() as u32, sub_hash, dev_hash) + payload
}

fn bytes_eq(a: &[u8], b: &[u8]) -> (r: bool)
    ensures
        r == (a@ == b@),
{
    if a.len() != b.len() {
        proof {
            assert(a@.len() != b@.len());
        }
        return false;
    }
    let n = a.len();
    for i in 0..n
        invariant
            n == a@.len() && n == b@.len(),
            forall|j: int| 0 <= j < i ==> a@[j] == b@[j],
    {
        if a[i] != b[i] {
            return false;
        }
    }
    proof {
        assert(a@ =~= b@);
    }
    true
}

fn build_props_block(props: &Vec<(String, String)>) -> (r: Vec<u8>)
    ensures
        r@ == props_block(props.deep_view()),
{
    let mut r: Vec<u8> = Vec::new();
    let n = props.len();
    let action: [u8; 6] = [65, 67, 84, 73, 79, 78];
    let seqnum: [u8; 6] = [83, 69, 81, 78, 85, 77];
    proof {
        assert(action@ =~= action_key());
        assert(seqnum@ =~= seqnum_key());
        assert(props.deep_view().skip(0) == props.deep_view());
    }
    for i in 0..n
        invariant
            n == props@.len(),
            action@ == action_key(),
            seqnum@ == seqnum_key(),
            props_block(props.deep_view()) =~= r@ + props_block(props.deep_view().skip(i as int)),
    {
        let ghost rest = props.deep_view().skip(i as int);
        proof {
            assert(rest[0] == props.deep_view()[i as int]);
            assert(props.deep_view()[i as int] == (props@[i as int].0@, props@[i as int].1@));
            assert(rest.drop_first() =~= props.deep_view().skip(i + 1));
        }
        let k_bytes = props[i].0.as_str().as_bytes();
        let v_bytes = props[i].1.as_str().as_bytes();
        if !(bytes_eq(k_bytes, action.as_slice()) || bytes_eq(k_bytes, seqnum.as_slice())) {
            push_bytes(&mut r, k_bytes);
            r.push(61);
            push_bytes(&mut r, v_bytes);
            r.push(0);
        }
    }
    proof {
        assert(props.deep_view().skip(n as int) =~= Seq::empty());
    }
    r
}

/// Errors building a uevent message can report.
#[derive(Debug, Clone, Copy, PartialEq, Eq, Structural)]
pub enum UeventError {
    /// The properties buffer would not fit the header's 32-bit length field.
    PayloadTooLarge,
}

/// A libudev-compatible uevent emitter for one receiver: it owns the
/// sequence-number counter and renders each emission's wire bytes. The
/// socket the bytes are sent over lives outside this type.
pub struct UdevSender {
    seq_num: u64,
}

impl UdevSender {
    /// How many messages have been emitted so far.
    pub closed spec fn spec_seq_num(self) -> u64 {
        self.seq_num
    }

    /// A fresh sender: its first message carries `SEQNUM=1`.
    pub fn new() -> (r: UdevSender)
        ensures
            r.spec_seq_num() == 0,
    {
        UdevSender { seq_num: 0 }
    }

    /// Render the next message: bump the sequence number, drop any
    /// caller-supplied `ACTION`/`SEQNUM` properties, and lay out header and
    /// records. Fails only when the properties buffer cannot be described by
    /// the header.
    pub fn next_message(
        &mut self,
        action: &str,
        subsystem: Option<&String>,
        devtype: Option<&String>,
        properties: &Vec<(String, String)>,
    ) -> (r: Result<Vec<u8>, UeventError>)
        requires
            old(self).spec_seq_num() < u64::MAX,
        ensures
            final(self).spec_seq_num() == old(self).spec_seq_num() + 1,
            ({
                let msg = uevent_message(
                    action@,
                    final(self).spec_seq_num() as nat,
                    match subsystem {
                        Some(s) => Some(s@),
                        None => None,
                    },
                    match devtype {
                        Some(s) => Some(s@),
                        None => None,
                    },
                    properties.deep_view(),
                );
                match r {
                    Ok(bytes) => bytes@ == msg && uevent_payload(
                        action@,
                        final(self).spec_seq_num() as nat,
                        properties.deep_view(),
                    ).len() <= u32::MAX,
                    Err(UeventError::PayloadTooLarge) => uevent_payload(
                        action@,
                        final(self).spec_seq_num() as nat,
                        properties.deep_view(),
                    ).len() > u32::MAX,
                }
            }),
    {
        self.seq_num = self.seq_num + 1;

        // ACTION= record.
        let mut payload: Vec<u8> = Vec::new();
        let action_eq: [u8; 7] = [65, 67, 84, 73, 79, 78, 61];
        proof {
            assert(action_eq@ =~= action_key() + seq![61u8]);
        }
        push_bytes(&mut payload, action_eq.as_slice());
        push_bytes(&mut payload, action.as_bytes());
        payload.push(0);

        // SEQNUM= record.
        let seqnum_eq: [u8; 7] = [83, 69, 81, 78, 85, 77, 61];
        proof {
            assert(seqnum_eq@ =~= seqnum_key() + seq![61u8]);
        }
        push_bytes(&mut payload, seqnum_eq.as_slice());
        let digits = u64_to_dec_bytes(self.seq_num);
        push_bytes(&mut payload, digits.as_slice());
        payload.push(0);

        // Remaining caller-supplied records.
        let block = build_props_block(properties);
        push_bytes(&mut payload, block.as_slice());
        proof {
            assert(payload@ =~= uevent_payload(
                action@,
                self.seq_num as nat,
                properties.deep_view(),
            ));
        }

        if payload.len() > 0xffff_ffffusize {
            return Err(UeventError::PayloadTooLarge);
        }

        let sub_hash = match subsystem {
            Some(s) => murmur2_hash(s.as_str().as_bytes(), 0),
            None => 0,
        };
        let dev_hash = match devtype {
            Some(s) => murmur2_hash(s.as_str().as_bytes(), 0),
            None => 0,
        };

        let mut msg: Vec<u8> = Vec::new();
        let prefix: [u8; 12] = [108, 105, 98, 117, 100, 101, 118, 0, 0xfe, 0xed, 0xca, 0xfe];
        proof {
            assert(prefix@ =~= libudev_prefix() + seq![0xfeu8, 0xedu8, 0xcau8, 0xfeu8]);
        }
        push_bytes(&mut msg, prefix.as_slice());
        let forty = u32_to_le_bytes(UEVENT_HEADER_SIZE);
        push_bytes(&mut msg, forty.as_slice());
        push_bytes(&mut msg, forty.as_slice());
        let props_len = u32_to_le_bytes(payload.len() as u32);
        push_bytes(&mut msg, props_len.as_slice());
        let sub = u32_to_be_bytes(sub_hash);
        push_bytes(&mut msg, sub.as_slice());
        let dev = u32_to_be_bytes(dev_hash);
        push_bytes(&mut msg, dev.as_slice());
        let bloom: [u8; 8] = [0xff, 0xff, 0xff, 0xff, 0xff, 0xff, 0xff, 0xff];
        push_bytes(&mut msg, bloom.as_slice());
        proof {
            assert(bloom@.subrange(0, 4) =~= seq![0xffu8, 0xffu8, 0xffu8, 0xffu8]);
            assert(bloom@ =~= seq![0xffu8, 0xffu8, 0xffu8, 0xffu8] + seq![
                0xffu8,
                0xffu8,
                0xffu8,
                0xffu8,
            ]);
            assert(msg@ =~= uevent_header(payload.len() as u32, sub_hash, dev_hash));
        }
        push_bytes(&mut msg, payload.as_slice());
        Ok(msg)
    }
}

/// Law: the shape of every emitted message. It begins with the exact bytes
/// `6C 69 62 75 64 65 76 00`, carries `FE ED CA FE` at offset 8, and its
/// properties open with `ACTION=`, a NUL, `SEQNUM=`, ASCII digits and a NUL.
pub proof fn lemma_uevent_shape(
    action: Seq<char>,
    seqnum: nat,
    subsystem: Option<Seq<char>>,
    devtype: Option<Seq<char>>,
    props: Seq<(Seq<char>, Seq<char>)>,
)
    ensures
        ({
            let msg = uevent_message(action, seqnum, subsystem, devtype, props);
            let digits = dec_bytes(seqnum);
            let payload = msg.skip(40);
            &&& msg.take(8) == seq![0x6cu8, 0x69u8, 0x62u8, 0x75u8, 0x64u8, 0x65u8, 0x76u8, 0x00u8]
            &&& msg.subrange(8, 12) == seq![0xfeu8, 0xedu8, 0xcau8, 0xfeu8]
            &&& payload.take(7) == seq![65u8, 67u8, 84u8, 73u8, 79u8, 78u8, 61u8]
            &&& payload.subrange(
                7 + encode_utf8(action).len() as int,
                15 + encode_utf8(action).len() as int,
            ) == seq![0u8, 83u8, 69u8, 81u8, 78u8, 85u8, 77u8, 61u8]
            &&& payload.subrange(
                15 + encode_utf8(action).len() as int,
                15 + encode_utf8(action).len() + digits.len() as int,
            ) == digits
            &&& payload[15 + encode_utf8(action).len() + digits.len() as int] == 0u8
            &&& forall|i: int| 0 <= i < digits.len() ==> 48 <= #[trigger] digits[i] <= 57
        }),
{
    lemma_dec_bytes_digits(seqnum);
    let msg = uevent_message(action, seqnum, subsystem, devtype, props);
    let payload = uevent_payload(action, seqnum, props);
    let digits = dec_bytes(seqnum);
    vstd::bytes::lemma_auto_spec_u32_to_from_le_bytes();
    assert(msg.skip(40) =~= payload);
    assert(msg.take(8) =~= seq![0x6cu8, 0x69u8, 0x62u8, 0x75u8, 0x64u8, 0x65u8, 0x76u8, 0x00u8]);
    assert(msg.subrange(8, 12) =~= seq![0xfeu8, 0xedu8, 0xcau8, 0xfeu8]);
    assert(payload.take(7) =~= seq![65u8, 67u8, 84u8, 73u8, 79u8, 78u8, 61u8]);
    assert(payload.subrange(
        7 + encode_utf8(action).len() as int,
        15 + encode_utf8(action).len() as int,
    ) =~= seq![0u8, 83u8, 69u8, 81u8, 78u8, 85u8, 77u8, 61u8]);
    assert(payload.subrange(
        15 + encode_utf8(action).len() as int,
        15 + encode_utf8(action).len() + digits.len() as int,
    ) =~= digits);
}

} // verus!
