//! The encoding normalizer: what the bytes of a file become.
//!
//! The encoding of the bytes is guessed by `chardetng`. Bytes that are taken
//! for UTF-8 are left alone, and so are bytes for which the guess is not to
//! be relied on; all others are decoded by `encoding_rs`, with malformed
//! sequences replaced, and the text is what the file is to hold.

use vstd::prelude::*;
use vstd::utf8::{encode_utf8, encode_utf8_valid_utf8, valid_utf8};

verus! {

/// What `chardetng` guesses for `bytes`: the name of the encoding that
/// `EncodingDetector::guess_assess` returns, with no top-level domain and
/// with UTF-8 allowed, once the detector was fed all of `bytes` as the whole
/// stream, and whether it holds that guess to be better than some other.
pub uninterp spec fn assessed_encoding(bytes: Seq<u8>) -> (Seq<char>, bool);

/// The name of the encoding that is guessed for `bytes`.
pub open spec fn guessed_encoding(bytes: Seq<u8>) -> Seq<char> {
    assessed_encoding(bytes).0
}

/// Whether the guess for `bytes` can be relied on.
pub open spec fn guess_is_firm(bytes: Seq<u8>) -> bool {
    assessed_encoding(bytes).1
}

/// The text that `encoding_rs` decodes `bytes` to when they are read in the
/// encoding that `label` names: what `Decoder::decode_to_string` writes for
/// the whole input, with a byte order mark honoured and removed and every
/// malformed sequence replaced. `None` if `label` names no encoding.
pub uninterp spec fn decoded_text(label: Seq<char>, bytes: Seq<u8>) -> Option<Seq<char>>;

/// The name of the canonical encoding, in which every processed file is to
/// end up.
pub open spec fn canonical_encoding() -> Seq<char> {
    "UTF-8"@
}

/// The text of an optional string.
pub open spec fn text_view(text: Option<String>) -> Option<Seq<char>> {
    match text {
        Some(t) => Some(t@),
        None => None,
    }
}

/// Feeds `source` to a new `chardetng::EncodingDetector` as the whole stream
/// and asks `guess_assess`, with no top-level domain and with UTF-8 allowed.
/// Returns the name of the encoding guessed and the detector's own word on
/// whether that guess scored higher than some other candidate. The detector
/// is fed once and then dropped, so it is never fed after its last chunk.
#[verifier::external_body]
fn guess_encoding(source: &[u8]) -> (guess: (String, bool))
    ensures
        (guess.0@, guess.1) == assessed_encoding(source@),
{
    let mut detector = chardetng::EncodingDetector::new();
    detector.feed(source, true);
    let (encoding, firm) = detector.guess_assess(None, true);
    (encoding.name().to_string(), firm)
}

/// Decodes `source` with the decoder that `encoding_rs` makes for the
/// encoding named `label`, into a string large enough for the worst case,
/// as `Decoder::decode_to_string` does with `last` set. `None` if
/// `Encoding::for_label` knows no such encoding.
#[verifier::external_body]
fn decode_text(label: &str, source: &[u8]) -> (text: Option<String>)
    ensures
        text_view(text) == decoded_text(label@, source@),
{
    let encoding = encoding_rs::Encoding::for_label(label.as_bytes())?;
    let mut decoder = encoding.new_decoder();
    let capacity = decoder.max_utf8_buffer_length(source.len()).unwrap_or(0);
    let mut text = String::with_capacity(capacity);
    let _ = decoder.decode_to_string(source, &mut text, true);
    Some(text)
}

/// The bytes of a file, before or after their encoding was settled.
#[derive(Clone, Debug, PartialEq, Eq)]
pub enum Coding<'a> {
    /// The bytes were decoded: `output` is their text, and `src_coding`
    /// names the encoding they were in.
    UTF8 { output: String, src_coding: String },
    /// The bytes as they were read.
    Source(&'a [u8]),
}

/// The state of a file's bytes as a mathematical value.
pub enum Text {
    /// The bytes were decoded: `output` is their text, and `src_coding`
    /// names the encoding they were in.
    UTF8 { output: Seq<char>, src_coding: Seq<char> },
    /// The bytes as they were read.
    Source(Seq<u8>),
}

impl<'a> View for Coding<'a> {
    type V = Text;

    open spec fn view(&self) -> Text {
        match self {
            Coding::UTF8 { output, src_coding } => Text::UTF8 {
                output: output@,
                src_coding: src_coding@,
            },
            Coding::Source(source) => Text::Source(source@),
        }
    }
}

impl Text {
    /// The bytes that the value stands for: the UTF-8 form of a decoded
    /// text, or the bytes as they were read.
    pub open spec fn bytes(self) -> Seq<u8> {
        match self {
            Text::UTF8 { output, .. } => encode_utf8(output),
            Text::Source(source) => source,
        }
    }

    /// What is to be written over the file: the UTF-8 form of a decoded
    /// text. Bytes as they were read are not written again.
    pub open spec fn rewrite(self) -> Option<Seq<u8>> {
        match self {
            Text::UTF8 { output, .. } => Some(encode_utf8(output)),
            Text::Source(_) => None,
        }
    }
}

/// Whether bytes are decoded at all: their encoding is not the canonical
/// one, and the guess can be relied on.
pub open spec fn calls_for_decoding(guess: Seq<char>, firm: bool) -> bool {
    guess != canonical_encoding() && firm
}

/// What the bytes `source` become once `guess` is known to be the name of
/// their encoding, `firm` says whether that guess can be relied on, and
/// `text` is what decoding them gave. Bytes in the canonical encoding stay
/// as they are. So do bytes whose encoding is in doubt, and bytes that could
/// not be decoded: a wrong guess would spoil the file.
pub open spec fn resolved(
    source: Seq<u8>,
    guess: Seq<char>,
    firm: bool,
    text: Option<Seq<char>>,
) -> Text {
    if calls_for_decoding(guess, firm) {
        match text {
            Some(output) => Text::UTF8 { output, src_coding: guess },
            None => Text::Source(source),
        }
    } else {
        Text::Source(source)
    }
}

/// What the bytes `source` become: the outcome for the encoding that is
/// guessed for them and the text that they decode to in it.
pub open spec fn normalized(source: Seq<u8>) -> Text {
    let guess = guessed_encoding(source);
    resolved(source, guess, guess_is_firm(source), decoded_text(guess, source))
}

/// The bytes that a file holds after it was processed, given the bytes it
/// held before.
pub open spec fn processed(source: Seq<u8>) -> Seq<u8> {
    match normalized(source).rewrite() {
        Some(written) => written,
        None => source,
    }
}

/// Whether `name` names the canonical encoding.
pub fn is_canonical(name: &String) -> (b: bool)
    ensures
        b == (name@ == canonical_encoding()),
{
    let canonical = "UTF-8".to_owned();
    *name == canonical
}

impl<'a> Coding<'a> {
    /// The bytes `source`, with nothing known of their encoding yet.
    pub fn new(source: &'a [u8]) -> (coding: Coding<'a>)
        ensures
            coding@ == Text::Source(source@),
    {
        Coding::Source(source)
    }

    /// Whether bytes are to be decoded, given the name `guess` of their
    /// encoding and whether that guess can be relied on.
    pub fn needs_decoding(guess: &String, firm: bool) -> (b: bool)
        ensures
            b == calls_for_decoding(guess@, firm),
    {
        firm && !is_canonical(guess)
    }

    /// What the bytes `source` become once their encoding is known to be
    /// `guess`, `firm` says whether the guess can be relied on, and decoding
    /// them gave `text`.
    pub fn resolve(source: &'a [u8], guess: String, firm: bool, text: Option<String>) -> (coding:
        Coding<'a>)
        ensures
            coding@ == resolved(source@, guess@, firm, text_view(text)),
    {
        if Coding::needs_decoding(&guess, firm) {
            match text {
                Some(output) => Coding::UTF8 { output, src_coding: guess },
                None => Coding::Source(source),
            }
        } else {
            Coding::Source(source)
        }
    }

    /// Settles the encoding of bytes as they were read: guesses it, and
    /// decodes the bytes unless they are taken for the canonical encoding or
    /// the guess is in doubt.
    pub fn parse(self) -> (coding: Coding<'a>)
        requires
            self is Source,
        ensures
            coding@ == normalized(self->Source_0@),
    {
        match self {
            Coding::Source(source) => {
                let (guess, firm) = guess_encoding(source);
                if Coding::needs_decoding(&guess, firm) {
                    let text = decode_text(guess.as_str(), source);
                    Coding::resolve(source, guess, firm, text)
                } else {
                    Coding::resolve(source, guess, firm, None)
                }
            },
            // Decoded text is settled already.
            other => other,
        }
    }

    /// The bytes that the value stands for.
    pub fn as_ref(&self) -> (bytes: &[u8])
        ensures
            bytes@ == self@.bytes(),
    {
        match self {
            Coding::UTF8 { output, .. } => output.as_str().as_bytes(),
            Coding::Source(source) => source,
        }
    }

    /// What is to be written over the file, if anything: the UTF-8 form of
    /// a decoded text. A file whose bytes stayed as they were is left
    /// untouched.
    pub fn rewrite(&self) -> (bytes: Option<&[u8]>)
        ensures
            match bytes {
                Some(written) => self@.rewrite() == Some(written@),
                None => self@.rewrite() is None,
            },
    {
        match self {
            Coding::UTF8 { output, .. } => Some(output.as_str().as_bytes()),
            Coding::Source(_) => None,
        }
    }
}

/// A file whose bytes are taken for the canonical encoding is left
/// untouched: nothing is written, and it holds the same bytes afterwards.
pub proof fn lemma_canonical_file_untouched(source: Seq<u8>)
    ensures
        guessed_encoding(source) == canonical_encoding() ==> {
            &&& normalized(source) == Text::Source(source)
            &&& normalized(source).rewrite() is None
            &&& processed(source) == source
        },
{
}

/// Processing is idempotent on a file in the canonical encoding: the first
/// run writes nothing, so the second run sees the same bytes and writes
/// nothing either.
pub proof fn lemma_second_run_is_noop(source: Seq<u8>)
    ensures
        guessed_encoding(source) == canonical_encoding() ==> {
            &&& normalized(processed(source)).rewrite() is None
            &&& processed(processed(source)) == processed(source)
        },
{
}

/// A run that writes nothing changes nothing, and neither does any run
/// after it: this holds of a file in the canonical encoding, of one whose
/// encoding is in doubt, and of one that cannot be decoded.
pub proof fn lemma_untouched_file_stays_untouched(source: Seq<u8>)
    ensures
        normalized(source).rewrite() is None ==> {
            &&& processed(source) == source
            &&& normalized(processed(source)).rewrite() is None
            &&& processed(processed(source)) == source
        },
        !calls_for_decoding(guessed_encoding(source), guess_is_firm(source)) ==> normalized(
            source,
        ).rewrite() is None,
{
}

/// What is written over a file is well-formed UTF-8: a file that is
/// rewritten ends up in the canonical encoding.
pub proof fn lemma_rewritten_file_is_utf8(source: Seq<u8>)
    ensures
        normalized(source).rewrite() matches Some(written) ==> valid_utf8(written) && processed(
            source,
        ) == written,
{
    match normalized(source) {
        Text::UTF8 { output, .. } => encode_utf8_valid_utf8(output),
        Text::Source(_) => {},
    }
}

} // verus!
