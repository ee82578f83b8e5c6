//! Messages as a node's inbox delivers them.

use std::collections::hash_map::DefaultHasher;
use std::hash::Hasher;

use vstd::prelude::*;
use vstd::std_specs::hash::DefaultHasherAdditionalSpecFns;

verus! {

/// One application message out of a node's inbox. The node has verified `from`.
#[derive(Debug)]
pub struct AppMessage {
    /// The NodeId (hex) of the sender.
    pub from: String,
    pub topic: String,
    /// The payload in hex.
    pub payload_hex: String,
    /// Set when the sender waits for a reply.
    pub reply_token: Option<u64>,
    pub received_at: u64,
}

/// A message as a mathematical value.
pub struct MessageView {
    pub from: Seq<char>,
    pub topic: Seq<char>,
    pub payload_hex: Seq<char>,
    pub reply_token: Option<u64>,
    pub received_at: u64,
}

impl View for AppMessage {
    type V = MessageView;

    open spec fn view(&self) -> MessageView {
        MessageView {
            from: self.from@,
            topic: self.topic@,
            payload_hex: self.payload_hex@,
            reply_token: self.reply_token,
            received_at: self.received_at,
        }
    }
}

/// The value of a hexadecimal digit in either case.
pub open spec fn hex_digit(c: char) -> Option<int> {
    if '0' <= c && c <= '9' {
        Some(c as int - '0' as int)
    } else if 'a' <= c && c <= 'f' {
        Some(c as int - 'a' as int + 10)
    } else if 'A' <= c && c <= 'F' {
        Some(c as int - 'A' as int + 10)
    } else {
        None
    }
}

/// The bytes that a hexadecimal string stands for: two digits to a byte, the high one first. A
/// string of odd length, or one that holds anything but digits, stands for none.
pub open spec fn hex_decoded(text: Seq<char>) -> Option<Seq<u8>> {
    if text.len() % 2 == 0 && forall|i: int|
        0 <= i < text.len() ==> hex_digit(#[trigger] text[i]) is Some {
        Some(
            Seq::new(
                text.len() / 2,
                |i: int|
                    (16 * hex_digit(text[2 * i]).unwrap() + hex_digit(
                        text[2 * i + 1],
                    ).unwrap()) as u8,
            ),
        )
    } else {
        None
    }
}

/// Calls [`hex::decode`]. It is taken on trust that it accepts exactly the strings of even length
/// that hold hexadecimal digits of either case and nothing else, and that it turns each pair of
/// digits into one byte, the high digit first.
#[verifier::external_body]
fn hex_decode(text: &str) -> (bytes: Option<Vec<u8>>)
    ensures
        match bytes {
            Some(b) => hex_decoded(text@) == Some(b@),
            None => hex_decoded(text@) is None,
        },
{
    hex::decode(text).ok()
}

impl AppMessage {
    /// The raw payload, unless it is no hexadecimal string.
    pub fn payload(&self) -> (bytes: Option<Vec<u8>>)
        ensures
            match bytes {
                Some(b) => hex_decoded(self@.payload_hex) == Some(b@),
                None => hex_decoded(self@.payload_hex) is None,
            },
    {
        hex_decode(self.payload_hex.as_str())
    }
}

/// The byte that ends a string in what is fed to the hasher. It occurs in no UTF-8 text.
pub const END_OF_TEXT: u8 = 0xff;

/// What a message feeds to the hasher, write by write: the three texts, each closed by an end
/// mark, then whether there is a reply token, the token, and the time of arrival.
pub open spec fn fingerprint_writes(m: MessageView) -> Seq<Seq<u8>> {
    let texts = seq![
        vstd::utf8::encode_utf8(m.from),
        seq![END_OF_TEXT],
        vstd::utf8::encode_utf8(m.topic),
        seq![END_OF_TEXT],
        vstd::utf8::encode_utf8(m.payload_hex),
        seq![END_OF_TEXT],
    ];
    let token = match m.reply_token {
        Some(t) => seq![
            vstd::bytes::spec_u64_to_le_bytes(1),
            vstd::bytes::spec_u64_to_le_bytes(t),
        ],
        None => seq![vstd::bytes::spec_u64_to_le_bytes(0)],
    };
    (texts + token).push(vstd::bytes::spec_u64_to_le_bytes(m.received_at))
}

/// Feeds a text and its end mark to the hasher.
fn write_text(h: &mut DefaultHasher, text: &String)
    ensures
        final(h)@ == old(h)@ + seq![vstd::utf8::encode_utf8(text@), seq![END_OF_TEXT]],
{
    h.write(text.as_str().as_bytes());
    let mark: [u8; 1] = [END_OF_TEXT];
    h.write(&mark);
    assert(mark@ =~= seq![END_OF_TEXT]);
    assert(h@ =~= old(h)@ + seq![vstd::utf8::encode_utf8(text@), seq![END_OF_TEXT]]);
}

/// Feeds a number to the hasher.
fn write_number(h: &mut DefaultHasher, n: u64)
    ensures
        final(h)@ == old(h)@.push(vstd::bytes::spec_u64_to_le_bytes(n)),
{
    let bytes = vstd::bytes::u64_to_le_bytes(n);
    h.write(bytes.as_slice());
}

/// Stable fingerprint of a message for de-dup across polls.
pub fn fingerprint(m: &AppMessage) -> (fp: u64)
    ensures
        fp == DefaultHasher::spec_finish(fingerprint_writes(m@)),
{
    let mut h = DefaultHasher::new();
    write_text(&mut h, &m.from);
    write_text(&mut h, &m.topic);
    write_text(&mut h, &m.payload_hex);
    match m.reply_token {
        Some(t) => {
            write_number(&mut h, 1);
            write_number(&mut h, t);
        },
        None => {
            write_number(&mut h, 0);
        },
    }
    write_number(&mut h, m.received_at);
    assert(h@ =~= fingerprint_writes(m@));
    h.finish()
}

/// What follows the texts in the bytes that a message feeds to the hasher.
spec fn number_bytes(m: MessageView) -> Seq<u8> {
    match m.reply_token {
        Some(t) => vstd::bytes::spec_u64_to_le_bytes(1) + vstd::bytes::spec_u64_to_le_bytes(t)
            + vstd::bytes::spec_u64_to_le_bytes(m.received_at),
        None => vstd::bytes::spec_u64_to_le_bytes(0) + vstd::bytes::spec_u64_to_le_bytes(
            m.received_at,
        ),
    }
}

/// A text, its end mark, and whatever follows.
spec fn marked(text: Seq<char>, rest: Seq<u8>) -> Seq<u8> {
    vstd::utf8::encode_utf8(text) + (seq![END_OF_TEXT] + rest)
}

/// The end mark occurs in no encoded text.
proof fn lemma_no_end_mark(text: Seq<char>)
    ensures
        !vstd::utf8::encode_utf8(text).contains(END_OF_TEXT),
    decreases text.len(),
{
    if text.len() > 0 {
        lemma_no_end_mark(text.drop_first());
        let c = text[0] as u32;
        assert((c & 0x7F) as u8 != 0xffu8) by (bit_vector);
        assert(0xC0 | ((c >> 6) & 0x1F) as u8 != 0xffu8) by (bit_vector);
        assert(0xE0 | ((c >> 12) & 0x0F) as u8 != 0xffu8) by (bit_vector);
        assert(0xF0 | ((c >> 18) & 0x7) as u8 != 0xffu8) by (bit_vector);
        assert(0x80 | (c & 0x3F) as u8 != 0xffu8) by (bit_vector);
        assert(0x80 | ((c >> 6) & 0x3F) as u8 != 0xffu8) by (bit_vector);
        assert(0x80 | ((c >> 12) & 0x3F) as u8 != 0xffu8) by (bit_vector);
        let head = vstd::utf8::encode_scalar(c);
        let tail = vstd::utf8::encode_utf8(text.drop_first());
        assert(!head.contains(END_OF_TEXT));
        assert forall|k: int| 0 <= k < (head + tail).len() implies (head + tail)[k]
            != END_OF_TEXT by {
            if k >= head.len() {
                assert((head + tail)[k] == tail[k - head.len()]);
            }
        }
    }
}

/// A marked text splits in one way only.
proof fn lemma_marked_unique(a: Seq<char>, rest_a: Seq<u8>, b: Seq<char>, rest_b: Seq<u8>)
    requires
        marked(a, rest_a) == marked(b, rest_b),
    ensures
        a == b,
        rest_a == rest_b,
{
    lemma_no_end_mark(a);
    lemma_no_end_mark(b);
    let ea = vstd::utf8::encode_utf8(a);
    let eb = vstd::utf8::encode_utf8(b);
    let ma = marked(a, rest_a);
    let mb = marked(b, rest_b);
    assert(ma[ea.len() as int] == END_OF_TEXT);
    assert(mb[eb.len() as int] == END_OF_TEXT);
    if ea.len() < eb.len() {
        assert(mb[ea.len() as int] == eb[ea.len() as int]);
    }
    if eb.len() < ea.len() {
        assert(ma[eb.len() as int] == ea[eb.len() as int]);
    }
    assert(ea =~= ma.take(ea.len() as int));
    assert(eb =~= mb.take(eb.len() as int));
    assert(rest_a =~= ma.skip(ea.len() as int + 1));
    assert(rest_b =~= mb.skip(eb.len() as int + 1));
    vstd::utf8::encode_utf8_decode_utf8(a);
    vstd::utf8::encode_utf8_decode_utf8(b);
}

/// Run together, the writes are the marked texts and then the numbers.
proof fn lemma_flattened_writes(m: MessageView)
    ensures
        fingerprint_writes(m).flatten() == marked(
            m.from,
            marked(m.topic, marked(m.payload_hex, number_bytes(m))),
        ),
{
    let w = fingerprint_writes(m);
    let numbers = w.skip(6);
    assert(numbers.flatten() =~= number_bytes(m)) by {
        reveal_with_fuel(Seq::<_>::flatten, 4);
    }
    lemma_flatten_text(w.skip(4));
    assert(w.skip(4).skip(2) =~= numbers);
    lemma_flatten_text(w.skip(2));
    assert(w.skip(2).skip(2) =~= w.skip(4));
    lemma_flatten_text(w);
}

/// A text's two writes come first when a list of writes that starts with them is run together.
proof fn lemma_flatten_text(w: Seq<Seq<u8>>)
    requires
        w.len() >= 2,
    ensures
        w.flatten() == w[0] + (w[1] + w.skip(2).flatten()),
{
    assert(w.drop_first().drop_first() =~= w.skip(2));
    assert(w.drop_first()[0] == w[1]);
    let rest = w.drop_first();
    assert(rest.flatten() == rest.first() + rest.drop_first().flatten());
}

/// Messages that differ in anything feed different bytes to the hasher, so only a collision of the
/// hash itself can give two messages one fingerprint.
pub proof fn fingerprints_cover_the_message(a: MessageView, b: MessageView)
    ensures
        fingerprint_writes(a).flatten() == fingerprint_writes(b).flatten() ==> a == b,
{
    if fingerprint_writes(a).flatten() == fingerprint_writes(b).flatten() {
        lemma_flattened_writes(a);
        lemma_flattened_writes(b);
        let (na, nb) = (number_bytes(a), number_bytes(b));
        let (pa, pb) = (marked(a.payload_hex, na), marked(b.payload_hex, nb));
        lemma_marked_unique(a.from, marked(a.topic, pa), b.from, marked(b.topic, pb));
        lemma_marked_unique(a.topic, pa, b.topic, pb);
        lemma_marked_unique(a.payload_hex, na, b.payload_hex, nb);
        vstd::bytes::lemma_auto_spec_u64_to_from_le_bytes();
        let ra = vstd::bytes::spec_u64_to_le_bytes(a.received_at);
        let rb = vstd::bytes::spec_u64_to_le_bytes(b.received_at);
        assert(ra =~= na.skip(na.len() - 8));
        assert(rb =~= nb.skip(nb.len() - 8));
        if a.reply_token is Some && b.reply_token is Some {
            let ta = vstd::bytes::spec_u64_to_le_bytes(a.reply_token.unwrap());
            let tb = vstd::bytes::spec_u64_to_le_bytes(b.reply_token.unwrap());
            assert(ta =~= na.subrange(8, 16));
            assert(tb =~= nb.subrange(8, 16));
        }
    }
}

/// The hexadecimal digit for a number below sixteen. Where it is a letter, `capital` says which.
pub open spec fn digit_for(n: int, capital: bool) -> char {
    if capital {
        "0123456789ABCDEF"@[n]
    } else {
        "0123456789abcdef"@[n]
    }
}

/// The bytes in hexadecimal. `capital` says at which positions capital letters are used.
pub open spec fn spelled(bytes: Seq<u8>, capital: spec_fn(int) -> bool) -> Seq<char> {
    Seq::new(
        2 * bytes.len(),
        |i: int|
            digit_for(
                if i % 2 == 0 {
                    bytes[i / 2] as int / 16
                } else {
                    bytes[i / 2] as int % 16
                },
                capital(i),
            ),
    )
}

/// Whatever is sent in hexadecimal is read back, in small and capital letters mixed at will.
pub proof fn payloads_read_back(bytes: Seq<u8>, capital: spec_fn(int) -> bool)
    ensures
        hex_decoded(spelled(bytes, capital)) == Some(bytes),
{
    reveal_strlit("0123456789ABCDEF");
    reveal_strlit("0123456789abcdef");
    let text = spelled(bytes, capital);
    assert forall|i: int| 0 <= i < text.len() implies hex_digit(#[trigger] text[i]) == Some(
        if i % 2 == 0 {
            bytes[i / 2] as int / 16
        } else {
            bytes[i / 2] as int % 16
        },
    ) by {
        let n = if i % 2 == 0 {
            bytes[i / 2] as int / 16
        } else {
            bytes[i / 2] as int % 16
        };
        assert(0 <= n < 16);
        lemma_digit(n, capital(i));
    }
    let read = hex_decoded(text);
    assert(read is Some);
    assert forall|k: int| 0 <= k < bytes.len() implies #[trigger] read.unwrap()[k] == bytes[k] by {
        assert(hex_digit(text[2 * k]) == Some(bytes[k] as int / 16));
        assert(hex_digit(text[2 * k + 1]) == Some(bytes[k] as int % 16));
    }
    assert(read.unwrap() =~= bytes);
}

/// Nothing is read as a payload but bytes in hexadecimal.
pub proof fn only_hexadecimal_is_read(text: Seq<char>)
    ensures
        hex_decoded(text) matches Some(bytes) ==> exists|capital: spec_fn(int) -> bool|
            text == #[trigger] spelled(bytes, capital),
{
    reveal_strlit("0123456789ABCDEF");
    reveal_strlit("0123456789abcdef");
    if let Some(bytes) = hex_decoded(text) {
        let capital = |i: int| 'A' <= text[i] && text[i] <= 'F';
        let again = spelled(bytes, capital);
        assert forall|i: int| 0 <= i < text.len() implies text[i] == #[trigger] again[i] by {
            let k = i / 2;
            assert(hex_digit(text[2 * k]) is Some);
            assert(hex_digit(text[2 * k + 1]) is Some);
            let high = hex_digit(text[2 * k]).unwrap();
            let low = hex_digit(text[2 * k + 1]).unwrap();
            assert(0 <= high < 16 && 0 <= low < 16);
            assert(bytes[k] == 16 * high + low);
            assert(bytes[k] as int / 16 == high && bytes[k] as int % 16 == low);
            let n = if i % 2 == 0 {
                high
            } else {
                low
            };
            assert(hex_digit(text[i]) == Some(n));
            lemma_digit_of(text[i]);
        }
        assert(text =~= again);
    }
}

/// A digit stands for the number it was made for.
proof fn lemma_digit(n: int, capital: bool)
    requires
        0 <= n < 16,
    ensures
        hex_digit(digit_for(n, capital)) == Some(n),
{
    reveal_strlit("0123456789ABCDEF");
    reveal_strlit("0123456789abcdef");
    if n < 8 {
        assert(n == 0 || n == 1 || n == 2 || n == 3 || n == 4 || n == 5 || n == 6 || n == 7);
    } else {
        assert(n == 8 || n == 9 || n == 10 || n == 11 || n == 12 || n == 13 || n == 14 || n == 15);
    }
}

/// A digit is the one made for the number it stands for.
proof fn lemma_digit_of(c: char)
    ensures
        hex_digit(c) matches Some(n) ==> 0 <= n < 16 && c == digit_for(n, 'A' <= c && c <= 'F'),
{
    reveal_strlit("0123456789ABCDEF");
    reveal_strlit("0123456789abcdef");
    if let Some(n) = hex_digit(c) {
        if n < 8 {
            assert(n == 0 || n == 1 || n == 2 || n == 3 || n == 4 || n == 5 || n == 6 || n == 7);
        } else {
            assert(n == 8 || n == 9 || n == 10 || n == 11 || n == 12 || n == 13 || n == 14 || n
                == 15);
        }
    }
}

} // verus!
