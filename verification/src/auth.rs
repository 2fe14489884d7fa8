//! Identity extraction and authentication failures.
//!
//! When a JWT authenticator is configured, every connection must present a
//! bearer token and have it verified; when none is configured the token step
//! is skipped.  A failure is answered with HTTP status 400 and a JSON body
//! `{"error":"..."}` — built and escaped here, so the body is exact for
//! every message.

use vstd::prelude::*;
use crate::numfmt::hex_digit;
use crate::numfmt::hex_digits;
use crate::numfmt::hex_digit_str;

verus! {

/// What the connection's authentication step must do.
#[derive(Clone, Copy, Debug, PartialEq, Eq, Structural)]
pub enum AuthGate {
    /// No authenticator is configured: skip the token, carry no claims.
    NoAuth,
    /// An authenticator is configured and a bearer token is present: verify
    /// it; its claims become the identity's claims.
    VerifyToken,
    /// An authenticator is configured but no bearer token came: reject the
    /// request.
    MissingHeader,
}

/// Decide the authentication step from what the transport shows.
pub fn auth_gate(configured: bool, bearer_present: bool) -> (r: AuthGate)
    ensures
        !configured ==> r == AuthGate::NoAuth,
        configured && bearer_present ==> r == AuthGate::VerifyToken,
        configured && !bearer_present ==> r == AuthGate::MissingHeader,
{
    if !configured {
        AuthGate::NoAuth
    } else if bearer_present {
        AuthGate::VerifyToken
    } else {
        AuthGate::MissingHeader
    }
}

/// Why authentication failed; each variant carries the underlying error's
/// text.
#[derive(Debug)]
pub enum AuthError {
    /// The bearer header was missing or unreadable.
    NoAuthHeaderPresent { detail: String },
    /// The token did not verify.
    InvalidToken { detail: String },
}

impl AuthError {
    /// The message shown in the response body.
    pub open spec fn message_spec(self) -> Seq<char> {
        match self {
            AuthError::NoAuthHeaderPresent { detail } => "No auth header present, error: "@ + detail@,
            AuthError::InvalidToken { detail } => "Invalid token, error: "@ + detail@,
        }
    }

    /// Every authentication failure is a client error: HTTP 400.
    pub fn status(&self) -> (r: u16)
        ensures
            r == 400,
    {
        400
    }

    /// The message, computed.
    pub fn message(&self) -> (r: String)
        ensures
            r@ == self.message_spec(),
    {
        match self {
            AuthError::NoAuthHeaderPresent { detail } => {
                let mut m = "No auth header present, error: ".to_owned();
                m.append(detail.as_str());
                m
            },
            AuthError::InvalidToken { detail } => {
                let mut m = "Invalid token, error: ".to_owned();
                m.append(detail.as_str());
                m
            },
        }
    }

    /// The whole response body: `{"error":"<message>"}`, escaped.
    pub fn response_body(&self) -> (r: String)
        ensures
            r@ == error_body_spec(self.message_spec()),
    {
        let m = self.message();
        error_body(m.as_str())
    }
}

/// How one character is written inside a JSON string: quote and backslash
/// are escaped, control characters take their short escape or the `\u00XX`
/// form, everything else stands as itself.
pub open spec fn json_escape_char(c: char) -> Seq<char> {
    if c == '"' {
        seq!['\\', '"']
    } else if c == '\\' {
        seq!['\\', '\\']
    } else if c == '\n' {
        seq!['\\', 'n']
    } else if c == '\r' {
        seq!['\\', 'r']
    } else if c == '\t' {
        seq!['\\', 't']
    } else if c == '\u{8}' {
        seq!['\\', 'b']
    } else if c == '\u{c}' {
        seq!['\\', 'f']
    } else if (c as u32) < 32 {
        seq!['\\', 'u', '0', '0'] + hex_digits(c as u32 as nat, 2)
    } else {
        seq![c]
    }
}

/// A whole string, escaped character by character.
pub open spec fn json_escaped(s: Seq<char>) -> Seq<char>
    decreases s.len(),
{
    if s.len() == 0 {
        Seq::empty()
    } else {
        json_escape_char(s[0]) + json_escaped(s.subrange(1, s.len() as int))
    }
}

/// A JSON string literal: quotes around the escaped content.
pub open spec fn json_string_spec(s: Seq<char>) -> Seq<char> {
    seq!['"'] + json_escaped(s) + seq!['"']
}

/// The error response body for a message: `{"error":<json string>}`.
pub open spec fn error_body_spec(msg: Seq<char>) -> Seq<char> {
    "{\"error\":"@ + json_string_spec(msg) + seq!['}']
}

/// Escaping distributes over concatenation.
pub proof fn lemma_json_escaped_app(a: Seq<char>, b: Seq<char>)
    ensures
        json_escaped(a + b) == json_escaped(a) + json_escaped(b),
    decreases a.len(),
{
    if a.len() == 0 {
        assert(a + b =~= b);
        assert(json_escaped(a) + json_escaped(b) =~= json_escaped(b));
    } else {
        assert((a + b).subrange(1, (a + b).len() as int) =~= a.subrange(1, a.len() as int) + b);
        lemma_json_escaped_app(a.subrange(1, a.len() as int), b);
        assert((a + b)[0] == a[0]);
        assert(json_escaped(a + b) =~= json_escaped(a) + json_escaped(b));
    }
}

/// Relies on String::push: appends the given character to the end of the
/// string.
#[verifier::external_body]
fn push_char(s: &mut String, c: char)
    ensures
        final(s)@ == old(s)@ + seq![c],
{
    s.push(c);
}

fn append_escaped_char(out: &mut String, c: char)
    ensures
        final(out)@ == old(out)@ + json_escape_char(c),
{
    if c == '"' {
        out.append("\\\"");
        proof {
            reveal_strlit("\\\"");
            assert(final(out)@ =~= old(out)@ + json_escape_char(c));
        }
    } else if c == '\\' {
        out.append("\\\\");
        proof {
            reveal_strlit("\\\\");
            assert(final(out)@ =~= old(out)@ + json_escape_char(c));
        }
    } else if c == '\n' {
        out.append("\\n");
        proof {
            reveal_strlit("\\n");
            assert(final(out)@ =~= old(out)@ + json_escape_char(c));
        }
    } else if c == '\r' {
        out.append("\\r");
        proof {
            reveal_strlit("\\r");
            assert(final(out)@ =~= old(out)@ + json_escape_char(c));
        }
    } else if c == '\t' {
        out.append("\\t");
        proof {
            reveal_strlit("\\t");
            assert(final(out)@ =~= old(out)@ + json_escape_char(c));
        }
    } else if c == '\u{8}' {
        out.append("\\b");
        proof {
            reveal_strlit("\\b");
            assert(final(out)@ =~= old(out)@ + json_escape_char(c));
        }
    } else if c == '\u{c}' {
        out.append("\\f");
        proof {
            reveal_strlit("\\f");
            assert(final(out)@ =~= old(out)@ + json_escape_char(c));
        }
    } else if (c as u32) < 32 {
        let code = c as u32;
        out.append("\\u00");
        out.append(hex_digit_str((code / 16) as u8));
        out.append(hex_digit_str((code % 16) as u8));
        proof {
            reveal_strlit("\\u00");
            assert(hex_digits(code as nat / 256, 0) =~= Seq::<char>::empty());
            assert(hex_digits(code as nat / 16, 1) =~= seq![hex_digit((code as nat / 16) % 16)]);
            assert((code as nat / 16) % 16 == code as nat / 16);
            assert(hex_digits(code as nat, 2) =~= seq![
                hex_digit(code as nat / 16),
                hex_digit(code as nat % 16),
            ]);
            assert(final(out)@ =~= old(out)@ + json_escape_char(c));
        }
    } else {
        push_char(out, c);
    }
}

/// Write `s` as a JSON string literal, quoted and escaped.
pub fn json_quote(s: &str) -> (r: String)
    ensures
        r@ == json_string_spec(s@),
{
    let mut out = "\"".to_owned();
    proof {
        reveal_strlit("\"");
        assert(out@ =~= seq!['"'] + json_escaped(s@.subrange(0, 0)));
    }
    let n: usize = s.unicode_len();
    let mut i: usize = 0;
    while i != n
        invariant
            0 <= i <= n,
            n == s@.len(),
            out@ == seq!['"'] + json_escaped(s@.subrange(0, i as int)),
        decreases n - i,
    {
        let c = s.get_char(i);
        let ghost pfx = s@.subrange(0, i as int);
        append_escaped_char(&mut out, c);
        proof {
            assert(s@.subrange(0, i as int + 1) =~= pfx + seq![s@[i as int]]);
            lemma_json_escaped_app(pfx, seq![s@[i as int]]);
            let ghost single = seq![s@[i as int]];
            assert(single.subrange(1, 1) =~= Seq::<char>::empty());
            assert(json_escaped(single.subrange(1, 1)) =~= Seq::<char>::empty());
            assert(json_escaped(single) =~= json_escape_char(s@[i as int]));
            assert(out@ =~= seq!['"'] + json_escaped(s@.subrange(0, i as int + 1)));
        }
        i = i + 1;
    }
    push_char(&mut out, '"');
    proof {
        assert(s@.subrange(0, n as int) =~= s@);
        assert(out@ =~= json_string_spec(s@));
    }
    out
}

/// Build the error response body `{"error":"<msg>"}`, escaped.
pub fn error_body(msg: &str) -> (r: String)
    ensures
        r@ == error_body_spec(msg@),
{
    let mut r = "{\"error\":".to_owned();
    let q = json_quote(msg);
    r.append(q.as_str());
    push_char(&mut r, '}');
    proof {
        assert(r@ =~= error_body_spec(msg@));
    }
    r
}

} // verus!
