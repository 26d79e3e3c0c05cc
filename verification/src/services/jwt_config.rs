//! The claims that the session token carries, and how a token is read.
use crate::common::uuid_text::{parse_uuid, uuid_parse};
use vstd::prelude::*;
use vstd::std_specs::iter::IteratorSpec;

verus! {

/// The claims of a session token: the user's id, their quota type and the
/// expiry, in seconds since the Unix epoch.
pub struct Claims {
    pub id: u128,
    pub quota_type: String,
    pub exp: i64,
}

/// How long a session token is valid: seven days, in seconds.
pub const TOKEN_LIFETIME: i64 = 604800;

/// The claims of a new session token issued at `now` for the user whose id
/// parsed to `id` (`None` where it is no UUID: the token cannot be made).
pub fn claims_from(id: Option<u128>, quota_type: &str, now: i64) -> (r: Option<Claims>)
    requires
        now <= i64::MAX - TOKEN_LIFETIME,
    ensures
        match id {
            None => r is None,
            Some(u) => r matches Some(c) && c.id == u && c.quota_type@ == quota_type@ && c.exp
                == now + TOKEN_LIFETIME,
        },
{
    match id {
        None => None,
        Some(uuid) => Some(Claims { id: uuid, quota_type: quota_type.to_owned(), exp: now + TOKEN_LIFETIME }),
    }
}

/// The claims of a new session token for the user with id `id`, issued at
/// `now`: `None` where `id` is no UUID (the token cannot be made).
pub fn claims_for(id: &str, quota_type: &str, now: i64) -> (r: Option<Claims>)
    requires
        now <= i64::MAX - TOKEN_LIFETIME,
    ensures
        match uuid_parse(id@) {
            None => r is None,
            Some(u) => r matches Some(c) && c.id == u && c.quota_type@ == quota_type@ && c.exp
                == now + TOKEN_LIFETIME,
        },
{
    claims_from(parse_uuid(id), quota_type, now)
}

/// Whether `c` has the Unicode property White_Space, which is what
/// `char::is_whitespace` tests.
pub open spec fn is_white_space(c: char) -> bool {
    ||| ('\u{9}' <= c && c <= '\u{d}')
    ||| c == ' '
    ||| c == '\u{85}'
    ||| c == '\u{a0}'
    ||| c == '\u{1680}'
    ||| ('\u{2000}' <= c && c <= '\u{200a}')
    ||| c == '\u{2028}'
    ||| c == '\u{2029}'
    ||| c == '\u{202f}'
    ||| c == '\u{205f}'
    ||| c == '\u{3000}'
}

/// Whether the character has the Unicode property White_Space, as
/// `char::is_whitespace` tells.
fn char_is_whitespace(c: char) -> (b: bool)
    ensures
        b == is_white_space(c),
{
    ('\u{9}' <= c && c <= '\u{d}') || c == ' ' || c == '\u{85}' || c == '\u{a0}' || c == '\u{1680}' || (
    '\u{2000}' <= c && c <= '\u{200a}') || c == '\u{2028}' || c == '\u{2029}' || c == '\u{202f}' || c
        == '\u{205f}' || c == '\u{3000}'
}

/// `String::push`: appends one character.
#[verifier::external_body]
fn push_char(s: &mut String, c: char)
    ensures
        final(s)@ == old(s)@.push(c),
{
    s.push(c)
}

/// The test that keeps a character: it is not white space.
pub open spec fn not_white_space() -> spec_fn(char) -> bool {
    |c: char| !is_white_space(c)
}

/// The characters of `s` that are not white space, in order.
pub open spec fn without_white_space(s: Seq<char>) -> Seq<char> {
    s.filter(not_white_space())
}

proof fn lemma_keeps_all(t: Seq<char>)
    requires
        forall|i: int| 0 <= i < t.len() ==> !is_white_space(#[trigger] t[i]),
    ensures
        without_white_space(t) == t,
    decreases t.len(),
{
    reveal_with_fuel(Seq::filter, 1);
    if t.len() > 0 {
        lemma_keeps_all(t.drop_last());
        assert(t.drop_last().push(t.last()) =~= t);
    }
}

/// A token with its white space taken out holds none, and taking the white
/// space out of it again changes nothing.
pub proof fn lemma_strip_whitespace_idempotent(s: Seq<char>)
    ensures
        forall|i: int|
            0 <= i < without_white_space(s).len() ==> !is_white_space(#[trigger] without_white_space(s)[i]),
        without_white_space(without_white_space(s)) == without_white_space(s),
{
    let t = without_white_space(s);
    assert forall|i: int| 0 <= i < t.len() implies !is_white_space(#[trigger] t[i]) by {
        s.lemma_filter_pred(not_white_space(), i);
    }
    lemma_keeps_all(t);
}

/// The token with every white-space character taken out, as it is read
/// before it is decoded.
pub fn strip_whitespace(token: &str) -> (r: String)
    ensures
        r@ == without_white_space(token@),
{
    broadcast use vstd::string::group_string_axioms;

    let mut out = String::new();
    let mut chars = token.chars();
    let ghost mut seen: Seq<char> = Seq::empty();
    loop
        invariant
            seen + chars.remaining() == token@,
            out@ == without_white_space(seen),
            chars.decrease() is Some,
        ensures
            out@ == without_white_space(token@),
        decreases chars.decrease()->0,
    {
        let ghost before = chars.remaining();
        match chars.next() {
            Some(c) => {
                if !char_is_whitespace(c) {
                    push_char(&mut out, c);
                }
                proof {
                    assert(seen.push(c).drop_last() =~= seen);
                    reveal_with_fuel(Seq::filter, 1);
                    assert(seen.push(c) + chars.remaining() =~= seen + before);
                    seen = seen.push(c);
                }
            },
            None => {
                proof {
                    assert(seen =~= token@);
                }
                break ;
            },
        }
    }
    out
}

} // verus!
