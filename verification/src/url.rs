//! The address of a stream server: `wss://stream2NN.forexpros.com/echo/XXX/XXXXXXXX/websocket`,
//! where `NN` is a server number below 100 in two decimal digits, and the two
//! path segments are random numbers in three and eight lower-case hex digits.

use vstd::prelude::*;
use crate::text::push_char;
use rand::Rng;
use vstd::arithmetic::div_mod::lemma_mod_breakdown;
use vstd::arithmetic::mul::lemma_mul_is_commutative;

verus! {

/// The decimal digit of `d`, for `d < 10`.
pub open spec fn decimal_digit(d: nat) -> char {
    ('0' as nat + d) as char
}

/// The lower-case hex digit of `d`, for `d < 16`.
pub open spec fn hex_digit(d: nat) -> char {
    if d < 10 {
        ('0' as nat + d) as char
    } else {
        ('a' as nat + (d - 10)) as char
    }
}

/// The lowest `width` digits of `n` in base `base`, most significant first:
/// for `n < base^width`, `n` zero-padded to `width` digits.
pub open spec fn digits_padded(n: nat, base: nat, width: nat) -> Seq<char>
    decreases width,
{
    if width == 0 || base == 0 {
        Seq::empty()
    } else {
        digits_padded(n / base, base, (width - 1) as nat).push(
            if base == 16 { hex_digit(n % base) } else { decimal_digit(n % base) },
        )
    }
}

/// The address built from a server number and two path numbers, as
/// `format!("wss://stream2{:02}.forexpros.com/echo/{:03x}/{:08x}/websocket", server, first, second)`
/// writes it for `server < 100`, `first < 0x1000`, `second < 0x1_0000_0000`.
pub open spec fn spec_stream_url(server: nat, first: nat, second: nat) -> Seq<char> {
    "wss://stream2"@ + digits_padded(server, 10, 2) + ".forexpros.com/echo/"@
        + digits_padded(first, 16, 3) + "/"@ + digits_padded(second, 16, 8) + "/websocket"@
}

/// The address built from three random draws: the server number is
/// `server % 100`, the first path number `first % 0xfff`, the second
/// `second` itself.
pub open spec fn url_from_draws(server: u8, first: u16, second: u32) -> Seq<char> {
    spec_stream_url((server % 100) as nat, (first % 0xfff) as nat, second as nat)
}

/// Appends the lowest `width` digits of `n` in `base` (10 or 16).
fn push_digits_padded(out: &mut String, n: u32, base: u32, width: usize)
    requires
        base == 10 || base == 16,
    ensures
        final(out)@ == old(out)@ + digits_padded(n as nat, base as nat, width as nat),
    decreases width,
{
    if width == 0 {
        assert(old(out)@ + Seq::<char>::empty() =~= old(out)@);
        return;
    }
    push_digits_padded(out, n / base, base, width - 1);
    let d = n % base;
    let c: char = if d < 10 {
        (48u8 + d as u8) as char
    } else {
        (87u8 + d as u8) as char
    };
    assert(c == if base == 16 { hex_digit(d as nat) } else { decimal_digit(d as nat) });
    let ghost before = out@;
    push_char(out, c);
    assert(out@ =~= old(out)@ + digits_padded(n as nat, base as nat, width as nat));
}

/// Appends a string literal.
fn push_str(out: &mut String, s: &str)
    ensures
        final(out)@ == old(out)@ + s@,
{
    out.append(s);
}

/// The address of a stream server from three random draws (see `url_from_draws`).
pub fn stream_url(server: u8, first: u16, second: u32) -> (url: String)
    ensures
        url@ == url_from_draws(server, first, second),
{
    let mut url = String::new();
    push_str(&mut url, "wss://stream2");
    push_digits_padded(&mut url, (server % 100) as u32, 10, 2);
    push_str(&mut url, ".forexpros.com/echo/");
    push_digits_padded(&mut url, (first % 0xfff) as u32, 16, 3);
    push_str(&mut url, "/");
    push_digits_padded(&mut url, second, 16, 8);
    push_str(&mut url, "/websocket");
    url
}

/// Draws a random byte (`rand::thread_rng().gen::<u8>()`); any value may come.
#[verifier::external_body]
fn random_u8() -> (r: u8) {
    rand::thread_rng().gen::<u8>()
}

/// Draws a random 16-bit number (`rand::thread_rng().gen::<u16>()`); any value may come.
#[verifier::external_body]
fn random_u16() -> (r: u16) {
    rand::thread_rng().gen::<u16>()
}

/// Draws a random 32-bit number (`rand::thread_rng().gen::<u32>()`); any value may come.
#[verifier::external_body]
fn random_u32() -> (r: u32) {
    rand::thread_rng().gen::<u32>()
}

/// The address of a randomly chosen stream server, built by `stream_url`
/// from three random draws.
pub fn generate_stream_url() -> (url: String)
    ensures
        exists|server: u8, first: u16, second: u32|
            url@ == #[trigger] url_from_draws(server, first, second),
        has_stream_url_shape(url@),
{
    let server = random_u8();
    let first = random_u16();
    let second = random_u32();
    let url = stream_url(server, first, second);
    proof {
        lemma_stream_url_shape((server % 100) as nat, (first % 0xfff) as nat, second as nat);
    }
    url
}

/// A decimal digit.
pub open spec fn is_decimal(c: char) -> bool {
    '0' <= c <= '9'
}

/// A letter or a decimal digit.
pub open spec fn is_alphanumeric(c: char) -> bool {
    is_decimal(c) || ('a' <= c <= 'z') || ('A' <= c <= 'Z')
}

/// `url` reads `wss://stream`, three decimal digits, `.forexpros.com/echo/`,
/// three letters or digits, `/`, eight letters or digits, `/websocket`.
pub open spec fn has_stream_url_shape(url: Seq<char>) -> bool {
    &&& url.len() == 57
    &&& url.subrange(0, 12) == "wss://stream"@
    &&& forall|k: int| 12 <= k < 15 ==> is_decimal(#[trigger] url[k])
    &&& url.subrange(15, 35) == ".forexpros.com/echo/"@
    &&& forall|k: int| 35 <= k < 38 ==> is_alphanumeric(#[trigger] url[k])
    &&& url[38] == '/'
    &&& forall|k: int| 39 <= k < 47 ==> is_alphanumeric(#[trigger] url[k])
    &&& url.subrange(47, 57) == "/websocket"@
}

/// `digits_padded` gives `width` digits of its base.
proof fn lemma_digits_padded(n: nat, base: nat, width: nat)
    requires
        base == 10 || base == 16,
    ensures
        digits_padded(n, base, width).len() == width,
        forall|k: int| 0 <= k < width ==> is_alphanumeric(#[trigger] digits_padded(n, base, width)[k]),
        base == 10 ==> forall|k: int| 0 <= k < width ==> is_decimal(#[trigger] digits_padded(n, base, width)[k]),
    decreases width,
{
    if width > 0 {
        lemma_digits_padded(n / base, base, (width - 1) as nat);
    }
}

/// Every address built by `stream_url` has the shape of a stream-server
/// address, whatever the draws.
pub proof fn lemma_stream_url_shape(server: nat, first: nat, second: nat)
    ensures
        has_stream_url_shape(spec_stream_url(server, first, second)),
{
    reveal_strlit("wss://stream2");
    reveal_strlit("wss://stream");
    reveal_strlit(".forexpros.com/echo/");
    reveal_strlit("/");
    reveal_strlit("/websocket");
    let d = digits_padded(server, 10, 2);
    let a = digits_padded(first, 16, 3);
    let b = digits_padded(second, 16, 8);
    lemma_digits_padded(server, 10, 2);
    lemma_digits_padded(first, 16, 3);
    lemma_digits_padded(second, 16, 8);
    let url = spec_stream_url(server, first, second);
    assert(url.len() == 57);
    assert(url.subrange(0, 12) =~= "wss://stream"@);
    assert(url[12] == '2');
    assert(url.subrange(15, 35) =~= ".forexpros.com/echo/"@);
    assert forall|k: int| 12 <= k < 15 implies is_decimal(#[trigger] url[k]) by {
        if k > 12 {
            assert(url[k] == d[k - 13]);
        }
    }
    assert forall|k: int| 35 <= k < 38 implies is_alphanumeric(#[trigger] url[k]) by {
        assert(url[k] == a[k - 35]);
    }
    assert forall|k: int| 39 <= k < 47 implies is_alphanumeric(#[trigger] url[k]) by {
        assert(url[k] == b[k - 39]);
    }
    assert(url.subrange(47, 57) =~= "/websocket"@);
}

/// A decimal digit or a lower-case letter from `a` to `f`.
pub open spec fn is_lower_hex(c: char) -> bool {
    ('0' <= c <= '9') || ('a' <= c <= 'f')
}

/// The value of a lower-case hex digit.
pub open spec fn digit_value(c: char) -> int {
    if '0' <= c <= '9' {
        c as int - '0' as int
    } else {
        c as int - 'a' as int + 10
    }
}

/// The number that the digits `s` write in `base`, most significant first.
pub open spec fn read_digits(s: Seq<char>, base: nat) -> int
    decreases s.len(),
{
    if s.len() == 0 {
        0
    } else {
        read_digits(s.drop_last(), base) * base + digit_value(s.last())
    }
}

/// `base` to the power `width`.
pub open spec fn power(base: nat, width: nat) -> nat
    decreases width,
{
    if width == 0 {
        1
    } else {
        base * power(base, (width - 1) as nat)
    }
}

proof fn lemma_power_positive(base: nat, width: nat)
    requires
        base > 0,
    ensures
        power(base, width) > 0,
    decreases width,
{
    if width > 0 {
        lemma_power_positive(base, (width - 1) as nat);
        assert(base * power(base, (width - 1) as nat) > 0) by (nonlinear_arith)
            requires
                base > 0,
                power(base, (width - 1) as nat) > 0,
        ;
    }
}

/// The `width` digits written for `n` in base 10 or 16 are lower-case hex
/// digits below the base, and read back in that base they give `n` modulo
/// `base^width`: `n` itself when it has at most `width` digits.
pub proof fn lemma_digits_read_back(n: nat, base: nat, width: nat)
    requires
        base == 10 || base == 16,
    ensures
        forall|k: int| 0 <= k < width ==> is_lower_hex(#[trigger] digits_padded(n, base, width)[k])
            && 0 <= digit_value(digits_padded(n, base, width)[k]) < base,
        read_digits(digits_padded(n, base, width), base) == n % power(base, width),
    decreases width,
{
    lemma_digits_padded(n, base, width);
    if width == 0 {
        assert(n % 1 == 0);
    } else {
        let w1 = (width - 1) as nat;
        let q = n / base;
        lemma_digits_read_back(q, base, w1);
        let s = digits_padded(n, base, width);
        let prev = digits_padded(q, base, w1);
        let d = n % base;
        assert(s.drop_last() =~= prev);
        assert(digit_value(s.last()) == d);
        lemma_power_positive(base, w1);
        lemma_mod_breakdown(n as int, base as int, power(base, w1) as int);
        lemma_mul_is_commutative(base as int, (q % power(base, w1)) as int);
        assert forall|k: int| 0 <= k < width implies is_lower_hex(#[trigger] s[k])
            && 0 <= digit_value(s[k]) < base by {
            if k < w1 {
                assert(s[k] == prev[k]);
            }
        }
    }
}

/// The server number and the two path numbers are written in full in an
/// address: its characters 13 and 14 read in decimal give the server number,
/// characters 35 to 37 and 39 to 46 are lower-case hex digits that give the
/// first and the second path numbers.
pub proof fn lemma_stream_url_fields(server: nat, first: nat, second: nat)
    requires
        server < 100,
        first < 0x1000,
        second < 0x1_0000_0000,
    ensures
        ({
            let url = spec_stream_url(server, first, second);
            &&& read_digits(url.subrange(13, 15), 10) == server
            &&& read_digits(url.subrange(35, 38), 16) == first
            &&& read_digits(url.subrange(39, 47), 16) == second
            &&& forall|k: int| 35 <= k < 38 ==> is_lower_hex(#[trigger] url[k])
            &&& forall|k: int| 39 <= k < 47 ==> is_lower_hex(#[trigger] url[k])
        }),
{
    reveal_strlit("wss://stream2");
    reveal_strlit(".forexpros.com/echo/");
    reveal_strlit("/");
    reveal_strlit("/websocket");
    let d = digits_padded(server, 10, 2);
    let a = digits_padded(first, 16, 3);
    let b = digits_padded(second, 16, 8);
    lemma_digits_read_back(server, 10, 2);
    lemma_digits_read_back(first, 16, 3);
    lemma_digits_read_back(second, 16, 8);
    lemma_digits_padded(server, 10, 2);
    lemma_digits_padded(first, 16, 3);
    lemma_digits_padded(second, 16, 8);
    assert(power(10, 2) == 100) by {
        reveal_with_fuel(power, 3);
    }
    assert(power(16, 3) == 0x1000) by {
        reveal_with_fuel(power, 4);
    }
    assert(power(16, 8) == 0x1_0000_0000) by {
        reveal_with_fuel(power, 9);
    }
    let url = spec_stream_url(server, first, second);
    assert(url.len() == 57);
    assert forall|k: int| 13 <= k < 15 implies url[k] == d[k - 13] by {}
    assert forall|k: int| 35 <= k < 38 implies url[k] == a[k - 35] by {}
    assert(url.subrange(13, 15) =~= d);
    assert(url.subrange(35, 38) =~= a);
    assert(url.subrange(39, 47) =~= b);
    assert forall|k: int| 35 <= k < 38 implies is_lower_hex(#[trigger] url[k]) by {
        assert(url[k] == a[k - 35]);
    }
    assert forall|k: int| 39 <= k < 47 implies is_lower_hex(#[trigger] url[k]) by {
        assert(url[k] == b[k - 39]);
    }
}

/// The address built from three draws writes the server number as the draw
/// modulo 100, the first path number as the draw modulo `0xfff`, and the
/// second path number as the draw itself, in lower-case hex.
pub proof fn lemma_url_from_draws_fields(server: u8, first: u16, second: u32)
    ensures
        ({
            let url = url_from_draws(server, first, second);
            &&& read_digits(url.subrange(13, 15), 10) == server % 100
            &&& read_digits(url.subrange(35, 38), 16) == first % 0xfff
            &&& read_digits(url.subrange(39, 47), 16) == second
            &&& forall|k: int| 35 <= k < 38 ==> is_lower_hex(#[trigger] url[k])
            &&& forall|k: int| 39 <= k < 47 ==> is_lower_hex(#[trigger] url[k])
        }),
{
    lemma_stream_url_fields((server % 100) as nat, (first % 0xfff) as nat, second as nat);
}

} // verus!
