//! The payload codec: a self-describing JSON mapping between the email
//! payload and its wire text, with a proved round trip.
//!
//! The encoder emits `{"subject":"…","to":"…","text":"…"}`, escaping `"`
//! and `\` inside field values with a backslash; the decoder accepts
//! exactly that shape. Decoding what was encoded returns the original
//! payload, for every payload (`lemma_codec_round_trip`).

use vstd::prelude::*;
use vstd::string::StrSliceExecFns;
use vstd::string::StringExecFns;

use crate::error::StorageError;
use crate::job::JobRow;

verus! {

/// The email payload carried by jobs.
#[derive(Debug, PartialEq, Eq)]
pub struct Email {
    pub subject: String,
    pub to: String,
    pub text: String,
}

/// Mathematical model of an email payload.
pub ghost struct EmailModel {
    pub subject: Seq<char>,
    pub to: Seq<char>,
    pub text: Seq<char>,
}

impl View for Email {
    type V = EmailModel;

    open spec fn view(&self) -> EmailModel {
        EmailModel { subject: self.subject@, to: self.to@, text: self.text@ }
    }
}

impl Email {
    /// Field-by-field copy; the result denotes the same payload.
    pub fn clone_email(&self) -> (r: Email)
        ensures
            r@ == self@,
    {
        Email { subject: self.subject.clone(), to: self.to.clone(), text: self.text.clone() }
    }
}

/// Failure of the codec on malformed text.
#[derive(Clone, Copy, Debug, PartialEq, Eq, Structural)]
pub enum CodecError {
    Malformed,
}

/// How one character is written inside a JSON string: `"` and `\` get a
/// backslash in front, every other character stands as itself.
pub open spec fn escape_char(c: char) -> Seq<char> {
    if c == '"' || c == '\\' {
        seq!['\\', c]
    } else {
        seq![c]
    }
}

/// A field value as written inside its quotes.
pub open spec fn escape(s: Seq<char>) -> Seq<char>
    decreases s.len(),
{
    if s.len() == 0 {
        Seq::empty()
    } else {
        escape_char(s[0]) + escape(s.drop_first())
    }
}

/// Reads an escaped field value up to and including its closing quote;
/// yields the value and how many characters were consumed, or nothing if
/// the text ends early or holds an unknown escape.
pub open spec fn parse_string(s: Seq<char>) -> Option<(Seq<char>, int)>
    decreases s.len(),
{
    if s.len() == 0 {
        None
    } else if s[0] == '"' {
        Some((Seq::empty(), 1))
    } else if s[0] == '\\' {
        if s.len() < 2 {
            None
        } else if s[1] == '"' || s[1] == '\\' {
            match parse_string(s.skip(2)) {
                Some((t, n)) => Some((seq![s[1]] + t, n + 2)),
                None => None,
            }
        } else {
            None
        }
    } else {
        match parse_string(s.skip(1)) {
            Some((t, n)) => Some((seq![s[0]] + t, n + 1)),
            None => None,
        }
    }
}

/// `s` begins with `p`.
pub open spec fn starts_with(s: Seq<char>, p: Seq<char>) -> bool {
    p.len() <= s.len() && s.subrange(0, p.len() as int) == p
}

/// The opener up to the subject value.
pub open spec fn enc_subject_open() -> Seq<char> {
    "{\"subject\":\""@
}

/// From the subject's closing quote up to the to value.
pub open spec fn enc_to_open() -> Seq<char> {
    "\",\"to\":\""@
}

/// From the to's closing quote up to the text value.
pub open spec fn enc_text_open() -> Seq<char> {
    "\",\"text\":\""@
}

/// The text's closing quote and the closing brace.
pub open spec fn enc_close() -> Seq<char> {
    "\"}"@
}

/// What follows a field's closing quote before the to value.
pub open spec fn sep_to() -> Seq<char> {
    ",\"to\":\""@
}

/// What follows a field's closing quote before the text value.
pub open spec fn sep_text() -> Seq<char> {
    ",\"text\":\""@
}

/// What follows the last field's closing quote.
pub open spec fn json_end() -> Seq<char> {
    "}"@
}

/// The wire text of a payload.
pub open spec fn encode_spec(e: EmailModel) -> Seq<char> {
    enc_subject_open() + escape(e.subject) + enc_to_open() + escape(e.to) + enc_text_open()
        + escape(e.text) + enc_close()
}

/// The payload a wire text denotes, if it is well formed.
pub open spec fn decode_spec(s: Seq<char>) -> Option<EmailModel> {
    if !starts_with(s, enc_subject_open()) {
        None
    } else {
        match parse_string(s.skip(enc_subject_open().len() as int)) {
            None => None,
            Some((subject, n1)) => {
                let r1 = s.skip(enc_subject_open().len() as int + n1);
                if !starts_with(r1, sep_to()) {
                    None
                } else {
                    match parse_string(r1.skip(sep_to().len() as int)) {
                        None => None,
                        Some((to, n2)) => {
                            let r2 = r1.skip(sep_to().len() as int + n2);
                            if !starts_with(r2, sep_text()) {
                                None
                            } else {
                                match parse_string(r2.skip(sep_text().len() as int)) {
                                    None => None,
                                    Some((text, n3)) => {
                                        let r3 = r2.skip(sep_text().len() as int + n3);
                                        if r3 == json_end() {
                                            Some(EmailModel { subject, to, text })
                                        } else {
                                            None
                                        }
                                    },
                                }
                            }
                        },
                    }
                }
            },
        }
    }
}

/// Relies on String::push: appends exactly the one character.
#[verifier::external_body]
fn push_char(s: &mut String, c: char)
    ensures
        final(s)@ == old(s)@.push(c),
{
    s.push(c);
}

/// Escaping goes character by character: extending the value extends its
/// escaped form.
proof fn lemma_escape_snoc(s: Seq<char>, c: char)
    ensures
        escape(s.push(c)) == escape(s) + escape_char(c),
    decreases s.len(),
{
    if s.len() == 0 {
        assert(s.push(c).drop_first() =~= Seq::<char>::empty());
        assert(s.push(c)[0] == c);
        assert(escape(Seq::<char>::empty()) == Seq::<char>::empty());
        assert(escape(s.push(c)) == escape_char(c) + escape(s.push(c).drop_first()));
        assert(escape(s) == Seq::<char>::empty());
        assert(escape(s.push(c)) =~= escape(s) + escape_char(c));
    } else {
        assert(s.push(c).drop_first() =~= s.drop_first().push(c));
        lemma_escape_snoc(s.drop_first(), c);
        assert(escape(s.push(c)) == escape_char(s[0]) + (escape(s.drop_first()) + escape_char(c)));
        assert(escape_char(s[0]) + (escape(s.drop_first()) + escape_char(c)) =~= (escape_char(s[0])
            + escape(s.drop_first())) + escape_char(c));
    }
}

/// Appends the escaped form of `value` to `out`.
fn append_escaped(out: &mut String, value: &String)
    ensures
        final(out)@ == old(out)@ + escape(value@),
{
    let n = value.as_str().unicode_len();
    let mut i: usize = 0;
    proof {
        assert(value@.subrange(0, 0) =~= Seq::<char>::empty());
        assert(escape(value@.subrange(0, 0)) =~= Seq::<char>::empty());
        assert(out@ =~= old(out)@ + escape(value@.subrange(0, 0)));
    }
    while i < n
        invariant
            n == value@.len(),
            0 <= i <= n,
            out@ == old(out)@ + escape(value@.subrange(0, i as int)),
        decreases n - i,
    {
        let c = value.as_str().get_char(i);
        if c == '"' || c == '\\' {
            push_char(out, '\\');
        }
        push_char(out, c);
        proof {
            assert(value@.subrange(0, i + 1) =~= value@.subrange(0, i as int).push(c));
            lemma_escape_snoc(value@.subrange(0, i as int), c);
            if c == '"' || c == '\\' {
                assert(out@ =~= old(out)@ + escape(value@.subrange(0, i + 1)));
            } else {
                assert(out@ =~= old(out)@ + escape(value@.subrange(0, i + 1)));
            }
        }
        i += 1;
    }
    proof {
        assert(value@.subrange(0, n as int) =~= value@);
    }
}

/// The payload codec. Any codec that round-trips the payload would serve;
/// this one writes the self-describing JSON object.
#[derive(Clone, Copy, Debug)]
pub struct JsonCodec;

impl JsonCodec {
    /// Writes the wire text of `e`. Total: every payload is representable.
    pub fn encode(e: &Email) -> (r: String)
        ensures
            r@ == encode_spec(e@),
    {
        let mut out = String::new();
        out.append("{\"subject\":\"");
        append_escaped(&mut out, &e.subject);
        out.append("\",\"to\":\"");
        append_escaped(&mut out, &e.to);
        out.append("\",\"text\":\"");
        append_escaped(&mut out, &e.text);
        out.append("\"}");
        proof {
            assert(out@ =~= encode_spec(e@));
        }
        out
    }
}

/// Reads an escaped field value from `pos`, mirroring `parse_string` on
/// the remainder of `s`.
fn parse_string_exec(s: &str, pos: usize) -> (r: Option<(String, usize)>)
    requires
        pos <= s@.len(),
    ensures
        match r {
            Some(p) => parse_string(s@.skip(pos as int)) == Some((p.0@, p.1 as int)) && p.1
                <= s@.len() - pos,
            None => parse_string(s@.skip(pos as int)) is None,
        },
    decreases s@.len() - pos,
{
    let n = s.unicode_len();
    if pos >= n {
        return None;
    }
    let c = s.get_char(pos);
    proof {
        assert(s@.skip(pos as int)[0] == c);
    }
    if c == '"' {
        return Some((String::new(), 1));
    }
    if c == '\\' {
        if pos + 1 >= n {
            return None;
        }
        let c2 = s.get_char(pos + 1);
        proof {
            assert(s@.skip(pos as int)[1] == c2);
            assert(s@.skip(pos as int).skip(2) =~= s@.skip(pos + 2));
        }
        if c2 == '"' || c2 == '\\' {
            match parse_string_exec(s, pos + 2) {
                Some((t, m)) => {
                    let mut value = String::new();
                    push_char(&mut value, c2);
                    value.append(t.as_str());
                    proof {
                        assert(value@ =~= seq![c2] + t@);
                    }
                    Some((value, m + 2))
                },
                None => None,
            }
        } else {
            None
        }
    } else {
        proof {
            assert(s@.skip(pos as int).skip(1) =~= s@.skip(pos + 1));
        }
        match parse_string_exec(s, pos + 1) {
            Some((t, m)) => {
                let mut value = String::new();
                push_char(&mut value, c);
                value.append(t.as_str());
                proof {
                    assert(value@ =~= seq![c] + t@);
                }
                Some((value, m + 1))
            },
            None => None,
        }
    }
}

/// Checks that the text at `pos` begins with `lit`; yields the position
/// just past it.
fn expect_lit(s: &str, pos: usize, lit: &str) -> (r: Option<usize>)
    requires
        pos <= s@.len(),
    ensures
        match r {
            Some(q) => q as int == pos + lit@.len() && q <= s@.len() && starts_with(
                s@.skip(pos as int),
                lit@,
            ),
            None => !starts_with(s@.skip(pos as int), lit@),
        },
{
    let n = s.unicode_len();
    let m = lit.unicode_len();
    if n - pos < m {
        return None;
    }
    let mut j: usize = 0;
    while j < m
        invariant
            0 <= j <= m,
            m == lit@.len(),
            n == s@.len(),
            pos + m <= n,
            forall|k: int| 0 <= k < j ==> s@.skip(pos as int)[k] == lit@[k],
        decreases m - j,
    {
        if s.get_char(pos + j) != lit.get_char(j) {
            proof {
                assert(s@.skip(pos as int)[j as int] != lit@[j as int]);
                if starts_with(s@.skip(pos as int), lit@) {
                    assert(s@.skip(pos as int).subrange(0, lit@.len() as int)[j as int] == lit@[
                        j as int
                    ]);
                }
            }
            return None;
        }
        j += 1;
    }
    proof {
        assert(s@.skip(pos as int).subrange(0, m as int) =~= lit@);
    }
    Some(pos + m)
}

impl JsonCodec {
    /// Reads a payload back from its wire text: it succeeds exactly on well
    /// formed text, and returns the payload the text denotes.
    pub fn decode(s: &str) -> (r: Result<Email, CodecError>)
        ensures
            match r {
                Ok(e) => decode_spec(s@) == Some(e@),
                Err(_) => decode_spec(s@) is None,
            },
    {
        let total = s.unicode_len();
        proof {
            assert(s@.skip(0) =~= s@);
        }
        let p0 = match expect_lit(s, 0, "{\"subject\":\"") {
            Some(q) => q,
            None => {
                return Err(CodecError::Malformed);
            },
        };
        let (subject, n1) = match parse_string_exec(s, p0) {
            Some(t) => t,
            None => {
                return Err(CodecError::Malformed);
            },
        };
        let p1 = p0 + n1;
        proof {
            assert(s@.skip(p1 as int) =~= s@.skip(enc_subject_open().len() + n1 as int));
        }
        let p2 = match expect_lit(s, p1, ",\"to\":\"") {
            Some(q) => q,
            None => {
                return Err(CodecError::Malformed);
            },
        };
        proof {
            assert(s@.skip(p1 as int).skip(sep_to().len() as int) =~= s@.skip(p2 as int));
        }
        let (to, n2) = match parse_string_exec(s, p2) {
            Some(t) => t,
            None => {
                return Err(CodecError::Malformed);
            },
        };
        let p3 = p2 + n2;
        proof {
            assert(s@.skip(p1 as int).skip(sep_to().len() + n2 as int) =~= s@.skip(p3 as int));
        }
        let p4 = match expect_lit(s, p3, ",\"text\":\"") {
            Some(q) => q,
            None => {
                return Err(CodecError::Malformed);
            },
        };
        proof {
            assert(s@.skip(p3 as int).skip(sep_text().len() as int) =~= s@.skip(p4 as int));
        }
        let (text, n3) = match parse_string_exec(s, p4) {
            Some(t) => t,
            None => {
                return Err(CodecError::Malformed);
            },
        };
        let p5 = p4 + n3;
        proof {
            assert(s@.skip(p3 as int).skip(sep_text().len() + n3 as int) =~= s@.skip(p5 as int));
        }
        let p6 = match expect_lit(s, p5, "}") {
            Some(q) => q,
            None => {
                proof {
                    let r3 = s@.skip(p5 as int);
                    if r3 == json_end() {
                        assert(r3.subrange(0, json_end().len() as int) =~= r3);
                    }
                }
                return Err(CodecError::Malformed);
            },
        };
        if p6 != total {
            proof {
                let r3 = s@.skip(p5 as int);
                if r3 == json_end() {
                    assert(r3.len() == json_end().len());
                }
            }
            return Err(CodecError::Malformed);
        }
        proof {
            let r3 = s@.skip(p5 as int);
            assert(r3.len() == json_end().len());
            assert(r3.subrange(0, json_end().len() as int) =~= r3);
        }
        Ok(Email { subject, to, text })
    }
}

/// Reads the payload of a fetched row back into its logical value; a
/// malformed payload surfaces as the store's parse failure.
pub fn decode_payload(row: &JobRow) -> (r: Result<Email, StorageError>)
    ensures
        match r {
            Ok(e) => decode_spec(row.payload@) == Some(e@),
            Err(err) => err == StorageError::Parse && decode_spec(row.payload@) is None,
        },
{
    match JsonCodec::decode(row.payload.as_str()) {
        Ok(e) => Ok(e),
        Err(_) => Err(StorageError::Parse),
    }
}

/// Reading back an escaped value: the parser consumes exactly the escaped
/// form and its closing quote and returns the original value.
proof fn lemma_parse_escaped(a: Seq<char>, rest: Seq<char>)
    ensures
        parse_string(escape(a) + seq!['"'] + rest) == Some((a, escape(a).len() as int + 1)),
    decreases a.len(),
{
    let s = escape(a) + seq!['"'] + rest;
    if a.len() == 0 {
        assert(escape(a) == Seq::<char>::empty());
        assert(s =~= seq!['"'] + rest);
        assert(s[0] == '"');
        assert(a =~= Seq::<char>::empty());
    } else {
        let c = a[0];
        let a1 = a.drop_first();
        assert(escape(a) == escape_char(c) + escape(a1));
        lemma_parse_escaped(a1, rest);
        assert(seq![c] + a1 =~= a);
        if c == '"' || c == '\\' {
            assert(s[0] == '\\');
            assert(s[1] == c);
            assert(s.skip(2) =~= escape(a1) + seq!['"'] + rest);
        } else {
            assert(s[0] == c);
            assert(s.skip(1) =~= escape(a1) + seq!['"'] + rest);
        }
    }
}

/// The codec round trip: decoding an encoded payload returns the payload,
/// for every payload.
pub proof fn lemma_codec_round_trip(e: EmailModel)
    ensures
        decode_spec(encode_spec(e)) == Some(e),
{
    reveal_strlit("{\"subject\":\"");
    reveal_strlit("\",\"to\":\"");
    reveal_strlit("\",\"text\":\"");
    reveal_strlit("\"}");
    reveal_strlit(",\"to\":\"");
    reveal_strlit(",\"text\":\"");
    reveal_strlit("}");
    let s = encode_spec(e);
    assert(enc_to_open() =~= seq!['"'] + sep_to());
    assert(enc_text_open() =~= seq!['"'] + sep_text());
    assert(enc_close() =~= seq!['"'] + json_end());
    assert(s.subrange(0, enc_subject_open().len() as int) =~= enc_subject_open());
    let rest1 = sep_to() + escape(e.to) + enc_text_open() + escape(e.text) + enc_close();
    assert(s.skip(enc_subject_open().len() as int) =~= escape(e.subject) + seq!['"'] + rest1);
    lemma_parse_escaped(e.subject, rest1);
    let n1: int = escape(e.subject).len() as int + 1;
    let r1 = s.skip(enc_subject_open().len() as int + n1);
    assert(r1 =~= rest1);
    assert(r1.subrange(0, sep_to().len() as int) =~= sep_to());
    let rest2 = sep_text() + escape(e.text) + enc_close();
    assert(r1.skip(sep_to().len() as int) =~= escape(e.to) + seq!['"'] + rest2);
    lemma_parse_escaped(e.to, rest2);
    let n2: int = escape(e.to).len() as int + 1;
    let r2 = r1.skip(sep_to().len() as int + n2);
    assert(r2 =~= rest2);
    assert(r2.subrange(0, sep_text().len() as int) =~= sep_text());
    let rest3 = json_end();
    assert(r2.skip(sep_text().len() as int) =~= escape(e.text) + seq!['"'] + rest3);
    lemma_parse_escaped(e.text, rest3);
    let n3: int = escape(e.text).len() as int + 1;
    let r3 = r2.skip(sep_text().len() as int + n3);
    assert(r3 =~= json_end());
    assert(decode_spec(s) == Some(EmailModel { subject: e.subject, to: e.to, text: e.text }));
    assert(EmailModel { subject: e.subject, to: e.to, text: e.text } == e);
}

} // verus!
