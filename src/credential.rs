//! The `AcAuth` credential and its header form `AcAuth <token>`.
use vstd::prelude::*;
use vstd::string::*;
use vstd::utf8::*;

verus! {

/// The byte of an ASCII space, the separator between scheme and token.
pub const SPACE: u8 = 32;

/// `AcAuth` as bytes: the scheme name.
pub open spec fn scheme_name() -> Seq<u8> {
    seq![65u8, 99u8, 65u8, 117u8, 116u8, 104u8]
}

/// `AcAuth ` as bytes: the scheme name and the space that ends it.
pub open spec fn scheme_prefix() -> Seq<u8> {
    scheme_name().push(SPACE)
}

/// `n` space bytes.
pub open spec fn spaces(n: nat) -> Seq<u8> {
    Seq::new(n, |_i: int| SPACE)
}

/// Whether a byte may stand in a header value: a visible ASCII character, a
/// space, a tab, or any byte from 128 up.
pub open spec fn is_header_byte(b: u8) -> bool {
    (b >= 32 && b != 127) || b == 9
}

/// Whether every byte of `s` may stand in a header value.
pub open spec fn all_header_bytes(s: Seq<u8>) -> bool {
    forall|i: int| 0 <= i < s.len() ==> is_header_byte(#[trigger] s[i])
}

/// Whether a header value begins with the scheme name and a space, byte for byte.
pub open spec fn has_scheme_prefix(value: Seq<u8>) -> bool {
    value.len() >= scheme_prefix().len() && value.take(scheme_prefix().len() as int) == scheme_prefix()
}

/// Checks the scheme prefix of a header value (case-sensitive).
pub fn starts_with_scheme(value: &[u8]) -> (r: bool)
    ensures
        r == has_scheme_prefix(value@),
{
    if value.len() < 7 {
        return false;
    }
    let ok = value[0] == 65 && value[1] == 99 && value[2] == 65 && value[3] == 117 && value[4] == 116
        && value[5] == 104 && value[6] == SPACE;
    assert(scheme_prefix() =~= seq![65u8, 99u8, 65u8, 117u8, 116u8, 104u8, 32u8]);
    assert(ok == (value@.take(7) =~= scheme_prefix()));
    ok
}

/// What remains of `s` once its leading spaces are dropped.
pub open spec fn skip_spaces(s: Seq<u8>) -> Seq<u8>
    decreases s.len(),
{
    if s.len() > 0 && s[0] == SPACE {
        skip_spaces(s.drop_first())
    } else {
        s
    }
}

/// The bytes that stand for the token in a header value: all that follows the
/// scheme prefix, its leading spaces skipped.
pub open spec fn token_bytes(value: Seq<u8>) -> Seq<u8> {
    skip_spaces(value.skip(scheme_prefix().len() as int))
}

/// The token that a header value carries: present exactly when the token bytes
/// are not empty and are well-formed UTF-8, and then the text they encode.
pub open spec fn parse_token(value: Seq<u8>) -> Option<Seq<char>> {
    let t = token_bytes(value);
    if t.len() > 0 && valid_utf8(t) {
        Some(decode_utf8(t))
    } else {
        None
    }
}

/// Relies on `std::str::from_utf8`: it accepts exactly the well-formed UTF-8
/// byte strings, and the text it hands back is made of those same bytes.
#[verifier::external_body]
fn utf8_text(bytes: &[u8]) -> (r: Option<&str>)
    ensures
        r is Some <==> valid_utf8(bytes@),
        r matches Some(s) ==> s.spec_bytes() == bytes@,
{
    std::str::from_utf8(bytes).ok()
}

/// A text starts with a space exactly when its UTF-8 encoding starts with the
/// space byte.
pub proof fn lemma_space_first(chars: Seq<char>)
    requires
        chars.len() > 0,
    ensures
        encode_utf8(chars).len() > 0,
        (encode_utf8(chars)[0] == SPACE) == (chars[0] == ' '),
{
    let bytes = encode_utf8(chars);
    encode_utf8_first_scalar(chars);
    char_is_scalar(chars[0]);
    assert(bytes =~= encode_scalar(chars[0] as u32) + encode_utf8(chars.drop_first()));
    assert((32u32 & 0x7Fu32) as u8 == 32u8) by (bit_vector);
    assert((32u8 & 0x7Fu8) as u32 == 32u32) by (bit_vector);
    if chars[0] == ' ' {
        assert(encode_scalar(chars[0] as u32) =~= seq![32u8]);
    }
    if bytes[0] == SPACE {
        assert(decode_first_scalar(bytes) == 32u32);
        char_u32_cast(chars[0], 32u32);
    }
}

/// Leading spaces are skipped whatever their number.
pub proof fn lemma_skip_spaces_prefix(n: nat, rest: Seq<u8>)
    ensures
        skip_spaces(spaces(n) + rest) == skip_spaces(rest),
    decreases n,
{
    if n > 0 {
        assert((spaces(n) + rest).drop_first() =~= spaces((n - 1) as nat) + rest);
        lemma_skip_spaces_prefix((n - 1) as nat, rest);
    } else {
        assert(spaces(n) + rest =~= rest);
    }
}

/// However many spaces (one or more) part the scheme name from a text that
/// does not itself start with a space, the header value carries that text as
/// its token.
pub proof fn lemma_parse_spaced_token(w: nat, t: Seq<char>)
    requires
        w >= 1,
        t.len() > 0,
        t[0] != ' ',
    ensures
        parse_token(scheme_name() + spaces(w) + encode_utf8(t)) == Some(t),
{
    let bytes = encode_utf8(t);
    let value = scheme_name() + spaces(w) + bytes;
    assert(value.skip(7) =~= spaces((w - 1) as nat) + bytes);
    lemma_skip_spaces_prefix((w - 1) as nat, bytes);
    lemma_space_first(t);
    assert(skip_spaces(bytes) == bytes);
    encode_utf8_valid_utf8(t);
    encode_utf8_decode_utf8(t);
}

/// `AcAuth ` followed by a text that does not start with a space carries that
/// text as its token.
pub proof fn lemma_parse_token_text(t: Seq<char>)
    requires
        t.len() > 0,
        t[0] != ' ',
    ensures
        parse_token(scheme_prefix() + encode_utf8(t)) == Some(t),
{
    lemma_parse_spaced_token(1, t);
    assert(scheme_name() + spaces(1) + encode_utf8(t) =~= scheme_prefix() + encode_utf8(t));
}

/// `AcAuth ` followed by nothing but spaces carries no token.
pub proof fn lemma_parse_only_spaces(n: nat)
    ensures
        parse_token(scheme_prefix() + spaces(n)) is None,
{
    assert((scheme_prefix() + spaces(n)).skip(7) =~= spaces(n) + Seq::<u8>::empty());
    lemma_skip_spaces_prefix(n, Seq::<u8>::empty());
}

/// A header value whose token bytes are not well-formed UTF-8 carries no token.
pub proof fn lemma_parse_invalid_text(value: Seq<u8>)
    requires
        has_scheme_prefix(value),
        !valid_utf8(token_bytes(value)),
    ensures
        parse_token(value) is None,
{
}

/// Parsing depends on the header value alone: the same value always gives the
/// same token.
pub proof fn lemma_parse_deterministic(a: Seq<u8>, b: Seq<u8>)
    requires
        a == b,
    ensures
        parse_token(a) == parse_token(b),
{
}

/// A credential of the `AcAuth` scheme: the opaque token that a client presents.
pub struct AcAuth {
    token: String,
}

impl View for AcAuth {
    type V = Seq<char>;

    closed spec fn view(&self) -> Seq<char> {
        self.token@
    }
}

impl AcAuth {
    /// A token is never empty and never starts with a space: a header value
    /// that would give such a token carries none.
    #[verifier::type_invariant]
    spec fn well_formed(self) -> bool {
        self.token@.len() > 0 && self.token@[0] != ' '
    }

    /// The scheme name, as it opens an authorization header value.
    pub fn scheme() -> (r: &'static str)
        ensures
            r@ == seq!['A', 'c', 'A', 'u', 't', 'h'],
    {
        proof {
            reveal_strlit("AcAuth");
        }
        "AcAuth"
    }

    /// Reads the credential out of an authorization header value that starts
    /// with `AcAuth `. Spaces between the scheme and the token are skipped; the
    /// rest must be non-empty, well-formed UTF-8 text, else there is no credential.
    pub fn decode(value: &[u8]) -> (r: Option<AcAuth>)
        requires
            has_scheme_prefix(value@),
        ensures
            parse_token(value@) == (match r {
                Some(c) => Some(c@),
                None => None,
            }),
    {
        let mut i: usize = 7;
        while i < value.len() && value[i] == SPACE
            invariant
                7 <= i <= value.len(),
                token_bytes(value@) == skip_spaces(value@.skip(i as int)),
            decreases value.len() - i,
        {
            assert(value@.skip(i as int).drop_first() =~= value@.skip(i + 1));
            i = i + 1;
        }
        if i == value.len() {
            assert(value@.skip(i as int) =~= Seq::<u8>::empty());
            return None;
        }
        let (_, rest) = value.split_at(i);
        assert(rest@ =~= value@.skip(i as int));
        assert(token_bytes(value@) == rest@);
        match utf8_text(rest) {
            Some(text) => {
                proof {
                    encode_utf8_decode_utf8(text@);
                    assert(text@.len() > 0);
                    lemma_space_first(text@);
                }
                Some(AcAuth { token: text.to_owned() })
            },
            None => None,
        }
    }

    /// Writes the credential as an authorization header value, `AcAuth `
    /// followed by the token's UTF-8 bytes. A token with a byte that a header
    /// value cannot hold (a control character other than tab) gives `None`.
    /// What is written reads back as this same credential.
    pub fn encode(&self) -> (r: Option<Vec<u8>>)
        ensures
            r is Some <==> all_header_bytes(encode_utf8(self@)),
            r matches Some(v) ==> v@ == scheme_prefix() + encode_utf8(self@),
            r matches Some(v) ==> parse_token(v@) == Some(self@),
    {
        proof {
            use_type_invariant(self);
        }
        let bytes = self.token.as_str().as_bytes();
        let mut out: Vec<u8> = vec![65u8, 99u8, 65u8, 117u8, 116u8, 104u8, SPACE];
        assert(out@ =~= scheme_prefix());
        let mut i: usize = 0;
        while i < bytes.len()
            invariant
                bytes@ == encode_utf8(self@),
                i <= bytes.len(),
                out@ == scheme_prefix() + bytes@.take(i as int),
                forall|j: int| 0 <= j < i ==> is_header_byte(#[trigger] bytes@[j]),
            decreases bytes.len() - i,
        {
            let b = bytes[i];
            if !((b >= 32 && b != 127) || b == 9) {
                return None;
            }
            out.push(b);
            assert(bytes@.take(i + 1) =~= bytes@.take(i as int).push(b));
            i = i + 1;
        }
        assert(bytes@.take(i as int) =~= bytes@);
        proof {
            lemma_parse_token_text(self@);
        }
        Some(out)
    }

    /// The token, as text.
    pub fn token(&self) -> (r: &str)
        ensures
            r@ == self@,
            r@.len() > 0,
    {
        proof {
            use_type_invariant(self);
        }
        self.token.as_str()
    }
}

} // verus!
