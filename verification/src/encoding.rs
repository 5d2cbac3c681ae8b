//! Character encodings: incremental decoding of received bytes and encoding of text to send.

use vstd::prelude::*;
use vstd::utf8::{
    decode_utf8, encode_utf8, encode_utf8_decode_utf8, encode_utf8_valid_utf8, valid_utf8,
};

use crate::chars::text_bytes;
use crate::model::TextEncoding;

verus! {

/// The streaming decoder of `encoding_rs`.
#[verifier::external_type_specification]
#[verifier::external_body]
pub struct ExDecoder(encoding_rs::Decoder);

/// The bytes that a decoder has been fed since it was made, in order.
pub uninterp spec fn decoder_input(decoder: encoding_rs::Decoder) -> Seq<u8>;

/// Whether a decoder was made for GBK rather than for UTF-8.
pub uninterp spec fn decoder_is_gbk(decoder: encoding_rs::Decoder) -> bool;

/// The text that a decoder has put out once it was fed `bytes`, and, with `last`, once the end
/// of the stream was signalled after them.
pub uninterp spec fn decoder_output(gbk: bool, bytes: Seq<u8>, last: bool) -> Seq<char>;

/// The text that a stream decodes to so far, or, with `last`, once it has ended. Well-formed
/// UTF-8 decodes to the characters that it encodes.
pub open spec fn decoded_text(gbk: bool, bytes: Seq<u8>, last: bool) -> Seq<char> {
    if !gbk && valid_utf8(bytes) {
        decode_utf8(bytes)
    } else {
        decoder_output(gbk, bytes, last)
    }
}

/// The bytes that `encoding_rs` gives for a text in GBK, and whether some character had none.
pub uninterp spec fn gbk_encoded(text: Seq<char>) -> (Seq<u8>, bool);

/// `Encoding::new_decoder_without_bom_handling` makes a decoder that has seen no byte and put
/// out no text.
#[verifier::external_body]
pub(crate) fn new_decoder(gbk: bool) -> (decoder: encoding_rs::Decoder)
    ensures
        decoder_is_gbk(decoder) == gbk,
        decoder_input(decoder) == Seq::<u8>::empty(),
        decoder_output(gbk, decoder_input(decoder), false) == Seq::<char>::empty(),
{
    let encoding = if gbk { encoding_rs::GBK } else { encoding_rs::UTF_8 };
    encoding.new_decoder_without_bom_handling()
}

/// The number of bytes that a decoder is handed at a time.
pub const DECODE_PIECE_BYTES: usize = 1_048_576;

/// `Decoder::decode_to_string` without `last` consumes all of `bytes`, given the output space
/// that `max_utf8_buffer_length` asks for, and puts out what they add to the text of the stream,
/// whatever pieces the stream comes in. A stream of well-formed UTF-8 decodes to its characters.
#[verifier::external_body]
pub(crate) fn decode(decoder: &mut encoding_rs::Decoder, bytes: &[u8]) -> (text: String)
    requires
        bytes@.len() <= DECODE_PIECE_BYTES,
    ensures
        decoder_is_gbk(*final(decoder)) == decoder_is_gbk(*old(decoder)),
        decoder_input(*final(decoder)) == decoder_input(*old(decoder)) + bytes@,
        decoded_text(decoder_is_gbk(*final(decoder)), decoder_input(*final(decoder)), false)
            == decoded_text(decoder_is_gbk(*old(decoder)), decoder_input(*old(decoder)), false)
            + text@,
{
    let capacity = decoder.max_utf8_buffer_length(bytes.len()).unwrap_or(usize::MAX);
    let mut text = String::with_capacity(capacity);
    let _ = decoder.decode_to_string(bytes, &mut text, false);
    text
}

/// `Decoder::decode_to_string` with `last` and no further bytes ends the stream and puts out
/// what stands for an incomplete character at its end. There is none in well-formed UTF-8, nor
/// in an empty stream.
#[verifier::external_body]
pub(crate) fn finish_decoding(decoder: encoding_rs::Decoder) -> (text: String)
    ensures
        decoded_text(decoder_is_gbk(decoder), decoder_input(decoder), true) == decoded_text(
            decoder_is_gbk(decoder),
            decoder_input(decoder),
            false,
        ) + text@,
        decoder_input(decoder).len() == 0 ==> text@.len() == 0,
{
    let mut decoder = decoder;
    let capacity = decoder.max_utf8_buffer_length(0).unwrap_or(usize::MAX);
    let mut text = String::with_capacity(capacity);
    let _ = decoder.decode_to_string(&[], &mut text, true);
    text
}

/// The encoded text fits in memory by far, so its size can be computed beforehand.
pub open spec fn encodable(text: Seq<char>, encoding: TextEncoding) -> bool {
    encoding == TextEncoding::Gbk ==> text_bytes(text) <= usize::MAX / 64
}

/// `Encoding::encode` of GBK gives the encoded bytes and whether a character was replaced
/// because GBK lacks it. ASCII stays as it is. The sizes that it computes for its buffers must
/// not overflow.
#[verifier::external_body]
pub(crate) fn gbk_encode(text: &str) -> (encoded: (Vec<u8>, bool))
    requires
        encodable(text@, TextEncoding::Gbk),
    ensures
        (encoded.0@, encoded.1) == gbk_encoded(text@),
        (forall|i: int| 0 <= i < text@.len() ==> #[trigger] text@[i] <= '\u{7f}') ==> (
        encoded.0@ == encode_utf8(text@) && !encoded.1),
{
    let (bytes, _, had_errors) = encoding_rs::GBK.encode(text);
    (bytes.into_owned(), had_errors)
}

/// The text of a stream so far. An incomplete character at its end is not part of it yet.
pub open spec fn text_so_far(encoding: TextEncoding, bytes: Seq<u8>) -> Seq<char> {
    decoded_text(encoding == TextEncoding::Gbk, bytes, false)
}

/// What `bytes` add to the text of a stream after `before`.
pub open spec fn added_text(encoding: TextEncoding, before: Seq<u8>, bytes: Seq<u8>) -> Seq<char> {
    text_so_far(encoding, before + bytes).skip(text_so_far(encoding, before).len() as int)
}

/// What the end of the stream adds to the text of `bytes`.
pub open spec fn closing_text(encoding: TextEncoding, bytes: Seq<u8>) -> Seq<char> {
    let gbk = encoding == TextEncoding::Gbk;
    decoded_text(gbk, bytes, true).skip(decoded_text(gbk, bytes, false).len() as int)
}

/// A text in UTF-8 is read as itself, wherever the stream is cut into pieces, and nothing is left
/// over at its end.
pub proof fn utf8_reads_as_itself(before: Seq<char>, added: Seq<char>)
    ensures
        text_so_far(TextEncoding::Utf8, encode_utf8(before)) == before,
        added_text(TextEncoding::Utf8, encode_utf8(before), encode_utf8(added)) == added,
        closing_text(TextEncoding::Utf8, encode_utf8(before)) == Seq::<char>::empty(),
{
    encode_utf8_valid_utf8(before);
    encode_utf8_decode_utf8(before);
    encode_utf8_valid_utf8(before + added);
    encode_utf8_decode_utf8(before + added);
    encode_utf8_concat(before, added);
    assert((before + added).skip(before.len() as int) == added);
}

proof fn encode_utf8_concat(a: Seq<char>, b: Seq<char>)
    ensures
        encode_utf8(a + b) == encode_utf8(a) + encode_utf8(b),
    decreases a.len(),
{
    if a.len() == 0 {
        assert(a + b == b);
    } else {
        assert((a + b).drop_first() == a.drop_first() + b);
        encode_utf8_concat(a.drop_first(), b);
    }
}

/// A decoder for received bytes that come in pieces.
pub struct StreamDecoder {
    decoder: encoding_rs::Decoder,
}

impl StreamDecoder {
    pub closed spec fn encoding(self) -> TextEncoding {
        if decoder_is_gbk(self.decoder) {
            TextEncoding::Gbk
        } else {
            TextEncoding::Utf8
        }
    }

    pub closed spec fn input(self) -> Seq<u8> {
        decoder_input(self.decoder)
    }

    pub fn new(encoding: TextEncoding) -> (decoder: Self)
        ensures
            decoder.encoding() == encoding,
            decoder.input() == Seq::<u8>::empty(),
    {
        let gbk = match encoding {
            TextEncoding::Utf8 => false,
            TextEncoding::Gbk => true,
        };
        StreamDecoder { decoder: new_decoder(gbk) }
    }

    pub fn push(&mut self, bytes: &[u8]) -> (text: String)
        ensures
            final(self).encoding() == old(self).encoding(),
            final(self).input() == old(self).input() + bytes@,
            text@ == added_text(old(self).encoding(), old(self).input(), bytes@),
            text_so_far(old(self).encoding(), old(self).input() + bytes@) == text_so_far(
                old(self).encoding(),
                old(self).input(),
            ) + text@,
    {
        let mut text = String::new();
        let mut at: usize = 0;
        assert(self.input() + bytes@.take(0) =~= self.input());
        while at < bytes.len()
            invariant
                at <= bytes@.len(),
                self.encoding() == old(self).encoding(),
                self.input() == old(self).input() + bytes@.take(at as int),
                text_so_far(self.encoding(), self.input()) == text_so_far(
                    self.encoding(),
                    old(self).input(),
                ) + text@,
            decreases bytes@.len() - at,
        {
            let end: usize = if bytes.len() - at > DECODE_PIECE_BYTES {
                at + DECODE_PIECE_BYTES
            } else {
                bytes.len()
            };
            let ghost before = text@;
            let piece = vstd::slice::slice_subrange(bytes, at, end);
            let more = decode(&mut self.decoder, piece);
            text.append(more.as_str());
            proof {
                assert(bytes@.take(at as int) + piece@ =~= bytes@.take(end as int));
                assert(old(self).input() + bytes@.take(at as int) + piece@ =~= old(self).input()
                    + bytes@.take(end as int));
                let start = text_so_far(self.encoding(), old(self).input());
                assert(start + before + more@ =~= start + (before + more@));
            }
            at = end;
        }
        assert(bytes@.take(at as int) =~= bytes@);
        assert(text@ == added_text(old(self).encoding(), old(self).input(), bytes@));
        text
    }

    pub fn finish(self) -> (text: String)
        ensures
            text@ == closing_text(self.encoding(), self.input()),
            self.input().len() == 0 ==> text@.len() == 0,
    {
        let text = finish_decoding(self.decoder);
        assert(text@ == closing_text(self.encoding(), self.input()));
        text
    }
}

} // verus!
