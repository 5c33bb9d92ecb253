//! The JSON text of a capability token's header and claims: written in the
//! compact form (fields in declaration order, no spaces, strings escaped the
//! way `serde_json` escapes them), and read back from that form.
use vstd::prelude::*;
use crate::text::{chars_of, decimal, push_char, push_str, owned, u64_to_decimal, string_from};

verus! {

broadcast use vstd::string::group_string_axioms;

/// The header of a capability token.
#[derive(Debug, Clone)]
pub struct JwtHeader {
    pub alg: String,
    pub typ: String,
}

/// The claims of a capability token.
#[derive(Debug, Clone)]
pub struct CapabilityClaims {
    /// Execution ID (JWT `sub`).
    pub sub: String,
    /// Capability name.
    pub cap: String,
    /// Granted flag.
    pub grt: bool,
    /// Granting authority.
    pub aud: String,
    /// Optional reason.
    pub rsn: Option<String>,
    /// Unique token id.
    pub jti: String,
    /// Issued at (unix timestamp).
    pub iat: i64,
    /// Expiration (unix timestamp).
    pub exp: i64,
}

/// The claims as plain values.
pub struct ClaimsView {
    pub sub: Seq<char>,
    pub cap: Seq<char>,
    pub grt: bool,
    pub aud: Seq<char>,
    pub rsn: Option<Seq<char>>,
    pub jti: Seq<char>,
    pub iat: i64,
    pub exp: i64,
}

impl View for CapabilityClaims {
    type V = ClaimsView;

    open spec fn view(&self) -> ClaimsView {
        ClaimsView {
            sub: self.sub@,
            cap: self.cap@,
            grt: self.grt,
            aud: self.aud@,
            rsn: match self.rsn {
                Some(r) => Some(r@),
                None => None,
            },
            jti: self.jti@,
            iat: self.iat,
            exp: self.exp,
        }
    }
}

// ─── Writing ────────────────────────────────────────────────────────────────

pub open spec fn hex_digit(d: nat) -> char {
    if d < 10 { crate::text::digit_char(d) } else if d == 10 { 'a' } else if d == 11 { 'b' } else if d == 12 { 'c' }
    else if d == 13 { 'd' } else if d == 14 { 'e' } else { 'f' }
}

/// One character as it stands inside a JSON string.
pub open spec fn escape_char(c: char) -> Seq<char> {
    if c == '"' {
        seq!['\\', '"']
    } else if c == '\\' {
        seq!['\\', '\\']
    } else if c == '\u{8}' {
        seq!['\\', 'b']
    } else if c == '\t' {
        seq!['\\', 't']
    } else if c == '\n' {
        seq!['\\', 'n']
    } else if c == '\u{c}' {
        seq!['\\', 'f']
    } else if c == '\r' {
        seq!['\\', 'r']
    } else if (c as u32) < 0x20 {
        seq!['\\', 'u', '0', '0', hex_digit((c as u32 / 16) as nat), hex_digit((c as u32 % 16) as nat)]
    } else {
        seq![c]
    }
}

pub open spec fn escape(s: Seq<char>) -> Seq<char>
    decreases s.len(),
{
    if s.len() == 0 {
        seq![]
    } else {
        escape_char(s[0]) + escape(s.drop_first())
    }
}

/// A JSON string literal.
pub open spec fn json_str(s: Seq<char>) -> Seq<char> {
    seq!['"'] + escape(s) + seq!['"']
}

pub open spec fn json_int(i: i64) -> Seq<char> {
    if i < 0 { seq!['-'] + decimal((-(i as int)) as nat) } else { decimal(i as nat) }
}

pub open spec fn json_bool(b: bool) -> Seq<char> {
    if b { "true"@ } else { "false"@ }
}

/// The compact JSON text of the claims.
pub open spec fn claims_json(c: ClaimsView) -> Seq<char> {
    "{\"sub\":"@ + json_str(c.sub) + ",\"cap\":"@ + json_str(c.cap) + ",\"grt\":"@ + json_bool(c.grt)
        + ",\"aud\":"@ + json_str(c.aud) + ",\"rsn\":"@ + (match c.rsn { Some(r) => json_str(r), None => "null"@ })
        + ",\"jti\":"@ + json_str(c.jti) + ",\"iat\":"@ + json_int(c.iat) + ",\"exp\":"@ + json_int(c.exp) + "}"@
}

/// The compact JSON text of the header.
pub open spec fn header_json(alg: Seq<char>, typ: Seq<char>) -> Seq<char> {
    "{\"alg\":"@ + json_str(alg) + ",\"typ\":"@ + json_str(typ) + "}"@
}

fn hex_digit_of(d: u32) -> (c: char)
    requires
        d < 16,
    ensures
        c == hex_digit(d as nat),
{
    if d < 10 {
        if d == 0 { '0' } else if d == 1 { '1' } else if d == 2 { '2' } else if d == 3 { '3' } else if d == 4 { '4' }
        else if d == 5 { '5' } else if d == 6 { '6' } else if d == 7 { '7' } else if d == 8 { '8' } else { '9' }
    } else if d == 10 { 'a' } else if d == 11 { 'b' } else if d == 12 { 'c' } else if d == 13 { 'd' } else if d == 14 { 'e' } else { 'f' }
}

fn push_escaped_char(out: &mut String, c: char)
    ensures
        final(out)@ == old(out)@ + escape_char(c),
{
    let ghost before = out@;
    if c == '"' {
        push_char(out, '\\');
        push_char(out, '"');
    } else if c == '\\' {
        push_char(out, '\\');
        push_char(out, '\\');
    } else if c == '\u{8}' {
        push_char(out, '\\');
        push_char(out, 'b');
    } else if c == '\t' {
        push_char(out, '\\');
        push_char(out, 't');
    } else if c == '\n' {
        push_char(out, '\\');
        push_char(out, 'n');
    } else if c == '\u{c}' {
        push_char(out, '\\');
        push_char(out, 'f');
    } else if c == '\r' {
        push_char(out, '\\');
        push_char(out, 'r');
    } else if (c as u32) < 0x20 {
        let u = c as u32;
        push_char(out, '\\');
        push_char(out, 'u');
        push_char(out, '0');
        push_char(out, '0');
        push_char(out, hex_digit_of(u / 16));
        push_char(out, hex_digit_of(u % 16));
    } else {
        push_char(out, c);
    }
    assert(out@ =~= before + escape_char(c));
}

fn push_json_str(out: &mut String, s: &str)
    ensures
        final(out)@ == old(out)@ + json_str(s@),
{
    let cs = chars_of(s);
    let ghost start = out@;
    push_char(out, '"');
    let mut i: usize = 0;
    while i < cs.len()
        invariant
            i <= cs@.len(),
            out@ == start + seq!['"'] + escape(cs@.take(i as int)),
        decreases cs@.len() - i,
    {
        push_escaped_char(out, cs[i]);
        proof { lemma_escape_push(cs@.take(i as int), cs@[i as int]); assert(cs@.take(i + 1) =~= cs@.take(i as int).push(cs@[i as int])); }
        i = i + 1;
    }
    push_char(out, '"');
    proof {
        assert(cs@.take(cs@.len() as int) =~= s@);
        assert(out@ =~= start + json_str(s@));
    }
}

/// Escaping a text one character longer appends that character's escape.
pub proof fn lemma_escape_push(s: Seq<char>, c: char)
    ensures
        escape(s.push(c)) == escape(s) + escape_char(c),
    decreases s.len(),
{
    if s.len() == 0 {
        assert(s.push(c).drop_first() =~= Seq::<char>::empty());
        assert(s.push(c)[0] == c);
        assert(escape(Seq::<char>::empty()) =~= Seq::<char>::empty());
        assert(escape(s.push(c)) =~= escape_char(c) + escape(Seq::<char>::empty()));
        assert(escape(s) =~= Seq::<char>::empty());
        assert(escape(s.push(c)) =~= escape(s) + escape_char(c));
    } else {
        assert(s.push(c).drop_first() =~= s.drop_first().push(c));
        lemma_escape_push(s.drop_first(), c);
        assert(escape(s.push(c)) =~= escape(s) + escape_char(c));
    }
}

fn push_json_int(out: &mut String, i: i64)
    ensures
        final(out)@ == old(out)@ + json_int(i),
{
    if i < 0 {
        push_char(out, '-');
        let m: u64 = (-(i as i128)) as u64;
        let d = u64_to_decimal(m);
        push_str(out, d.as_str());
    } else {
        let d = u64_to_decimal(i as u64);
        push_str(out, d.as_str());
    }
}

/// The compact JSON text of the claims.
pub fn write_claims(c: &CapabilityClaims) -> (r: String)
    ensures
        r@ == claims_json(c@),
{
    let mut out = owned("{\"sub\":");
    push_json_str(&mut out, c.sub.as_str());
    push_str(&mut out, ",\"cap\":");
    push_json_str(&mut out, c.cap.as_str());
    push_str(&mut out, ",\"grt\":");
    if c.grt {
        push_str(&mut out, "true");
    } else {
        push_str(&mut out, "false");
    }
    push_str(&mut out, ",\"aud\":");
    push_json_str(&mut out, c.aud.as_str());
    push_str(&mut out, ",\"rsn\":");
    match &c.rsn {
        Some(r) => push_json_str(&mut out, r.as_str()),
        None => push_str(&mut out, "null"),
    }
    push_str(&mut out, ",\"jti\":");
    push_json_str(&mut out, c.jti.as_str());
    push_str(&mut out, ",\"iat\":");
    push_json_int(&mut out, c.iat);
    push_str(&mut out, ",\"exp\":");
    push_json_int(&mut out, c.exp);
    push_str(&mut out, "}");
    out
}

/// The compact JSON text of the header.
pub fn write_header(h: &JwtHeader) -> (r: String)
    ensures
        r@ == header_json(h.alg@, h.typ@),
{
    let mut out = owned("{\"alg\":");
    push_json_str(&mut out, h.alg.as_str());
    push_str(&mut out, ",\"typ\":");
    push_json_str(&mut out, h.typ.as_str());
    push_str(&mut out, "}");
    out
}

// ─── Reading ────────────────────────────────────────────────────────────────

pub open spec fn unescape_simple(e: char) -> Option<char> {
    if e == '"' {
        Some('"')
    } else if e == '\\' {
        Some('\\')
    } else if e == '/' {
        Some('/')
    } else if e == 'b' {
        Some('\u{8}')
    } else if e == 'f' {
        Some('\u{c}')
    } else if e == 'n' {
        Some('\n')
    } else if e == 'r' {
        Some('\r')
    } else if e == 't' {
        Some('\t')
    } else {
        None
    }
}

pub open spec fn hex_val(c: char) -> Option<nat> {
    if '0' <= c <= '9' {
        Some((c as u32 - '0' as u32) as nat)
    } else if 'a' <= c <= 'f' {
        Some((c as u32 - 'a' as u32 + 10) as nat)
    } else if 'A' <= c <= 'F' {
        Some((c as u32 - 'A' as u32 + 10) as nat)
    } else {
        None
    }
}

/// Four hex digits at `i`.
pub open spec fn hex4(s: Seq<char>, i: int) -> Option<nat> {
    match (hex_val(s[i]), hex_val(s[i + 1]), hex_val(s[i + 2]), hex_val(s[i + 3])) {
        (Some(a), Some(b), Some(c), Some(d)) => Some(a * 4096 + b * 256 + c * 16 + d),
        _ => None,
    }
}

/// The body of a JSON string, up to and without its closing quote, and what
/// follows the quote. Control characters must be escaped; a `\u` escape
/// must name a character outside the surrogate range.
pub open spec fn parse_str_body(s: Seq<char>) -> Option<(Seq<char>, Seq<char>)>
    decreases s.len(),
{
    if s.len() == 0 {
        None
    } else if s[0] == '"' {
        Some((seq![], s.drop_first()))
    } else if s[0] == '\\' {
        if s.len() < 2 {
            None
        } else if s[1] == 'u' {
            if s.len() < 6 {
                None
            } else {
                match hex4(s, 2) {
                    Some(v) => if 0xD800 <= v <= 0xDFFF {
                        None
                    } else {
                        match parse_str_body(s.skip(6)) {
                            Some((t, rest)) => Some((seq![v as char] + t, rest)),
                            None => None,
                        }
                    },
                    None => None,
                }
            }
        } else {
            match unescape_simple(s[1]) {
                Some(c) => match parse_str_body(s.skip(2)) {
                    Some((t, rest)) => Some((seq![c] + t, rest)),
                    None => None,
                },
                None => None,
            }
        }
    } else if (s[0] as u32) < 0x20 {
        None
    } else {
        match parse_str_body(s.drop_first()) {
            Some((t, rest)) => Some((seq![s[0]] + t, rest)),
            None => None,
        }
    }
}

proof fn lemma_hex_round_trip(d: nat)
    requires
        d < 16,
    ensures
        hex_val(hex_digit(d)) == Some(d),
{
}

proof fn lemma_escape_char_step(c: char, t: Seq<char>)
    ensures
        parse_str_body(escape_char(c) + t) == match parse_str_body(t) {
            Some((x, rest)) => Some((seq![c] + x, rest)),
            None => None::<(Seq<char>, Seq<char>)>,
        },
{
    let s = escape_char(c) + t;
    let u = c as u32;
    if c == '"' || c == '\\' || c == '\u{8}' || c == '\t' || c == '\n' || c == '\u{c}' || c == '\r' {
        assert(s[0] == '\\');
        assert(s.skip(2) =~= t);
    } else if u < 0x20 {
        lemma_hex_round_trip((u / 16) as nat);
        lemma_hex_round_trip((u % 16) as nat);
        assert(s[1] == 'u');
        assert(s.skip(6) =~= t);
        assert(hex_val(s[2]) == Some(0nat));
        assert(hex_val(s[3]) == Some(0nat));
        assert(hex4(s, 2) == Some(u as nat)) by {
            assert((u / 16) as nat * 16 + (u % 16) as nat == u as nat);
        }
        assert((u as nat) as char == c) by {
            vstd::utf8::char_u32_cast(c, u);
        }
    } else {
        assert(s[0] == c);
        assert(s.drop_first() =~= t);
    }
}

/// A written string reads back as itself, with what follows it.
pub proof fn lemma_str_round_trip(v: Seq<char>, rest: Seq<char>)
    ensures
        parse_str_body(escape(v) + seq!['"'] + rest) == Some((v, rest)),
    decreases v.len(),
{
    if v.len() == 0 {
        assert(escape(v) + seq!['"'] + rest =~= seq!['"'] + rest);
        assert((seq!['"'] + rest).drop_first() =~= rest);
    } else {
        lemma_str_round_trip(v.drop_first(), rest);
        let t = escape(v.drop_first()) + seq!['"'] + rest;
        assert(escape(v) + seq!['"'] + rest =~= escape_char(v[0]) + t);
        lemma_escape_char_step(v[0], t);
        assert(seq![v[0]] + v.drop_first() =~= v);
    }
}

pub open spec fn digit_run(s: Seq<char>) -> nat
    decreases s.len(),
{
    if s.len() > 0 && crate::text::is_digit(s[0]) { 1 + digit_run(s.drop_first()) } else { 0 }
}

pub open spec fn digits_value(d: Seq<char>) -> nat
    decreases d.len(),
{
    if d.len() == 0 { 0 } else { digits_value(d.drop_last()) * 10 + crate::text::digit_value(d.last()) }
}

/// A JSON integer that fits in `i64`, without leading zeros, and what
/// follows it.
pub open spec fn parse_json_int(s: Seq<char>) -> Option<(i64, Seq<char>)> {
    let neg = s.len() > 0 && s[0] == '-';
    let b = if neg { s.drop_first() } else { s };
    let n = digit_run(b) as int;
    if n == 0 || (n > 1 && b[0] == '0') {
        None
    } else {
        let v = digits_value(b.take(n));
        if neg {
            if v <= 0x8000_0000_0000_0000 { Some(((-(v as int)) as i64, b.skip(n))) } else { None }
        } else {
            if v <= 0x7fff_ffff_ffff_ffff { Some((v as i64, b.skip(n))) } else { None }
        }
    }
}

/// What follows `lit` at the start of `s`.
pub open spec fn expect(s: Seq<char>, lit: Seq<char>) -> Option<Seq<char>> {
    if s.len() >= lit.len() && s.take(lit.len() as int) == lit { Some(s.skip(lit.len() as int)) } else { None }
}

pub open spec fn parse_json_string(s: Seq<char>) -> Option<(Seq<char>, Seq<char>)> {
    if s.len() > 0 && s[0] == '"' { parse_str_body(s.drop_first()) } else { None }
}

pub open spec fn parse_json_bool(s: Seq<char>) -> Option<(bool, Seq<char>)> {
    match expect(s, "true"@) {
        Some(r) => Some((true, r)),
        None => match expect(s, "false"@) {
            Some(r) => Some((false, r)),
            None => None,
        },
    }
}

pub open spec fn parse_json_opt_str(s: Seq<char>) -> Option<(Option<Seq<char>>, Seq<char>)> {
    match expect(s, "null"@) {
        Some(r) => Some((None, r)),
        None => match parse_json_string(s) {
            Some((v, r)) => Some((Some(v), r)),
            None => None,
        },
    }
}

/// The claims read from their compact JSON text; `None` for any other text.
pub open spec fn parse_claims(s: Seq<char>) -> Option<ClaimsView> {
    match expect(s, "{\"sub\":"@) { None => None, Some(r) => claims_sub(r) }
}

#[verifier::opaque]
pub open spec fn claims_sub(s: Seq<char>) -> Option<ClaimsView> {
    match parse_json_string(s) { None => None, Some((sub, r)) =>
    match expect(r, ",\"cap\":"@) { None => None, Some(r2) => claims_cap(r2, sub) } }
}

#[verifier::opaque]
pub open spec fn claims_cap(s: Seq<char>, sub: Seq<char>) -> Option<ClaimsView> {
    match parse_json_string(s) { None => None, Some((cap, r)) =>
    match expect(r, ",\"grt\":"@) { None => None, Some(r2) => claims_grt(r2, sub, cap) } }
}

#[verifier::opaque]
pub open spec fn claims_grt(s: Seq<char>, sub: Seq<char>, cap: Seq<char>) -> Option<ClaimsView> {
    match parse_json_bool(s) { None => None, Some((grt, r)) =>
    match expect(r, ",\"aud\":"@) { None => None, Some(r2) => claims_aud(r2, sub, cap, grt) } }
}

#[verifier::opaque]
pub open spec fn claims_aud(s: Seq<char>, sub: Seq<char>, cap: Seq<char>, grt: bool) -> Option<ClaimsView> {
    match parse_json_string(s) { None => None, Some((aud, r)) =>
    match expect(r, ",\"rsn\":"@) { None => None, Some(r2) => claims_rsn(r2, sub, cap, grt, aud) } }
}

#[verifier::opaque]
pub open spec fn claims_rsn(s: Seq<char>, sub: Seq<char>, cap: Seq<char>, grt: bool, aud: Seq<char>) -> Option<ClaimsView> {
    match parse_json_opt_str(s) { None => None, Some((rsn, r)) =>
    match expect(r, ",\"jti\":"@) { None => None, Some(r2) => claims_jti(r2, sub, cap, grt, aud, rsn) } }
}

#[verifier::opaque]
pub open spec fn claims_jti(s: Seq<char>, sub: Seq<char>, cap: Seq<char>, grt: bool, aud: Seq<char>, rsn: Option<Seq<char>>) -> Option<ClaimsView> {
    match parse_json_string(s) { None => None, Some((jti, r)) =>
    match expect(r, ",\"iat\":"@) { None => None, Some(r2) => claims_iat(r2, ClaimsView { sub, cap, grt, aud, rsn, jti, iat: 0, exp: 0 }) } }
}

#[verifier::opaque]
pub open spec fn claims_iat(s: Seq<char>, c: ClaimsView) -> Option<ClaimsView> {
    match parse_json_int(s) { None => None, Some((iat, r)) =>
    match expect(r, ",\"exp\":"@) { None => None, Some(r2) => claims_exp(r2, ClaimsView { iat, ..c }) } }
}

#[verifier::opaque]
pub open spec fn claims_exp(s: Seq<char>, c: ClaimsView) -> Option<ClaimsView> {
    match parse_json_int(s) { None => None, Some((exp, r)) =>
    if r == "}"@ { Some(ClaimsView { exp, ..c }) } else { None } }
}

proof fn lemma_digit_char(d: nat)
    requires
        d < 10,
    ensures
        crate::text::digit_value(crate::text::digit_char(d)) == d,
        crate::text::is_digit(crate::text::digit_char(d)),
        d > 0 ==> crate::text::digit_char(d) != '0',
{
    if d == 0 {} else if d == 1 {} else if d == 2 {} else if d == 3 {} else if d == 4 {}
    else if d == 5 {} else if d == 6 {} else if d == 7 {} else if d == 8 {} else {}
}

proof fn lemma_decimal_digits(m: nat)
    ensures
        decimal(m).len() >= 1,
        forall|i: int| 0 <= i < decimal(m).len() ==> crate::text::is_digit(#[trigger] decimal(m)[i]),
        digits_value(decimal(m)) == m,
        decimal(m).len() > 1 ==> decimal(m)[0] != '0',
        m >= 1 ==> decimal(m)[0] != '0',
    decreases m,
{
    if m >= 10 {
        lemma_digit_char(m % 10);
        lemma_decimal_digits(m / 10);
        let d = decimal(m / 10);
        let c = crate::text::digit_char(m % 10);
        assert(decimal(m) == d.push(c));
        assert(d.push(c).drop_last() =~= d);
        assert(crate::text::digit_value(c) == m % 10);
        assert(digits_value(d.push(c)) == digits_value(d) * 10 + m % 10);
        assert((m / 10) * 10 + m % 10 == m) by (nonlinear_arith);
        assert forall|i: int| 0 <= i < d.push(c).len() implies crate::text::is_digit(#[trigger] d.push(c)[i]) by {
            if i < d.len() {
                assert(d.push(c)[i] == d[i]);
            }
        }
        assert(d.push(c)[0] == d[0]);
    } else {
        lemma_digit_char(m);
        let c = crate::text::digit_char(m);
        assert(decimal(m) == seq![c]);
        assert(seq![c].drop_last() =~= Seq::<char>::empty());
        assert(digits_value(seq![c]) == digits_value(Seq::<char>::empty()) * 10 + crate::text::digit_value(c));
    }
}

proof fn lemma_digit_run(d: Seq<char>, t: Seq<char>)
    requires
        forall|i: int| 0 <= i < d.len() ==> crate::text::is_digit(#[trigger] d[i]),
        t.len() == 0 || !crate::text::is_digit(t[0]),
    ensures
        digit_run(d + t) == d.len(),
    decreases d.len(),
{
    if d.len() == 0 {
        assert(d + t =~= t);
    } else {
        assert((d + t).drop_first() =~= d.drop_first() + t);
        assert forall|i: int| 0 <= i < d.drop_first().len() implies crate::text::is_digit(#[trigger] d.drop_first()[i]) by {
            assert(d.drop_first()[i] == d[i + 1]);
        }
        lemma_digit_run(d.drop_first(), t);
        assert((d + t)[0] == d[0]);
    }
}

/// A written integer reads back as itself, with what follows it.
pub proof fn lemma_int_round_trip(i: i64, t: Seq<char>)
    requires
        t.len() == 0 || !crate::text::is_digit(t[0]),
    ensures
        parse_json_int(json_int(i) + t) == Some((i, t)),
{
    let m: nat = if i < 0 { (-(i as int)) as nat } else { i as nat };
    lemma_decimal_digits(m);
    let d = decimal(m);
    lemma_digit_run(d, t);
    assert((d + t).take(d.len() as int) =~= d);
    assert((d + t).skip(d.len() as int) =~= t);
    assert((d + t)[0] == d[0]);
    if i < 0 {
        let s = seq!['-'] + d + t;
        assert(json_int(i) + t =~= s);
        assert(s.drop_first() =~= d + t);
        assert(m <= 0x8000_0000_0000_0000);
        assert((-(m as int)) as i64 == i);
    } else {
        assert(json_int(i) + t =~= d + t);
        assert(d[0] != '-') by {
            assert(crate::text::is_digit(d[0]));
        }
    }
}

proof fn lemma_expect(lit: Seq<char>, t: Seq<char>)
    ensures
        expect(lit + t, lit) == Some(t),
{
    assert((lit + t).take(lit.len() as int) =~= lit);
    assert((lit + t).skip(lit.len() as int) =~= t);
}

/// A written JSON string reads back as its text, with what follows it.
pub proof fn lemma_json_string_round_trip(v: Seq<char>, t: Seq<char>)
    ensures
        parse_json_string(json_str(v) + t) == Some((v, t)),
{
    let s = json_str(v) + t;
    assert(s[0] == '"');
    assert(s.drop_first() =~= escape(v) + seq!['"'] + t);
    lemma_str_round_trip(v, t);
}

proof fn lemma_bool_round_trip(b: bool, t: Seq<char>)
    ensures
        parse_json_bool(json_bool(b) + t) == Some((b, t)),
{
    reveal_strlit("true");
    reveal_strlit("false");
    if b {
        lemma_expect("true"@, t);
    } else {
        lemma_expect("false"@, t);
        let s = "false"@ + t;
        assert(s.take(4)[0] == 'f');
        assert(("true"@)[0] == 't');
        assert(expect(s, "true"@) is None);
    }
}

proof fn lemma_opt_str_round_trip(r: Option<Seq<char>>, t: Seq<char>)
    ensures
        parse_json_opt_str((match r { Some(x) => json_str(x), None => "null"@ }) + t) == Some((r, t)),
{
    reveal_strlit("null");
    match r {
        None => {
            lemma_expect("null"@, t);
        },
        Some(x) => {
            let s = json_str(x) + t;
            assert(s[0] == '"');
            assert(expect(s, "null"@) is None) by {
                if s.len() >= 4 {
                    assert(s.take(4)[0] == '"');
                    assert(("null"@)[0] == 'n');
                }
            }
            lemma_json_string_round_trip(x, t);
        },
    }
}

pub open spec fn rsn_json(r: Option<Seq<char>>) -> Seq<char> {
    match r {
        Some(x) => json_str(x),
        None => "null"@,
    }
}

/// The claims text, grouped from the right.
pub open spec fn claims_json_r(c: ClaimsView) -> Seq<char> {
    "{\"sub\":"@ + (json_str(c.sub) + (",\"cap\":"@ + (json_str(c.cap) + (",\"grt\":"@ + (json_bool(c.grt)
        + (",\"aud\":"@ + (json_str(c.aud) + (",\"rsn\":"@ + (rsn_json(c.rsn) + (",\"jti\":"@ + (json_str(c.jti)
        + (",\"iat\":"@ + (json_int(c.iat) + (",\"exp\":"@ + (json_int(c.exp) + "}"@)))))))))))))))
}

proof fn lemma_assoc3(a: Seq<char>, b: Seq<char>, c: Seq<char>)
    ensures
        (a + b) + c == a + (b + c),
{
    assert((a + b) + c =~= a + (b + c));
}

proof fn lemma_claims_json_r(c: ClaimsView)
    ensures
        claims_json(c) == claims_json_r(c),
{
    let a = seq![
        "{\"sub\":"@, json_str(c.sub), ",\"cap\":"@, json_str(c.cap), ",\"grt\":"@, json_bool(c.grt),
        ",\"aud\":"@, json_str(c.aud), ",\"rsn\":"@, rsn_json(c.rsn), ",\"jti\":"@, json_str(c.jti),
        ",\"iat\":"@, json_int(c.iat), ",\"exp\":"@, json_int(c.exp), "}"@
    ];
    let r15 = a[15] + a[16];
    let r14 = a[14] + r15;
    let r13 = a[13] + r14;
    let r12 = a[12] + r13;
    let r11 = a[11] + r12;
    let r10 = a[10] + r11;
    let r9 = a[9] + r10;
    let r8 = a[8] + r9;
    let r7 = a[7] + r8;
    let r6 = a[6] + r7;
    let r5 = a[5] + r6;
    let r4 = a[4] + r5;
    let r3 = a[3] + r4;
    let r2 = a[2] + r3;
    let r1 = a[1] + r2;
    let p2 = a[0] + a[1];
    let p3 = p2 + a[2];
    let p4 = p3 + a[3];
    let p5 = p4 + a[4];
    let p6 = p5 + a[5];
    let p7 = p6 + a[6];
    let p8 = p7 + a[7];
    let p9 = p8 + a[8];
    let p10 = p9 + a[9];
    let p11 = p10 + a[10];
    let p12 = p11 + a[11];
    let p13 = p12 + a[12];
    let p14 = p13 + a[13];
    let p15 = p14 + a[14];
    let p16 = p15 + a[15];
    assert(claims_json(c) == p16 + a[16]);
    lemma_assoc3(p15, a[15], a[16]);
    lemma_assoc3(p14, a[14], r15);
    lemma_assoc3(p13, a[13], r14);
    lemma_assoc3(p12, a[12], r13);
    lemma_assoc3(p11, a[11], r12);
    lemma_assoc3(p10, a[10], r11);
    lemma_assoc3(p9, a[9], r10);
    lemma_assoc3(p8, a[8], r9);
    lemma_assoc3(p7, a[7], r8);
    lemma_assoc3(p6, a[6], r7);
    lemma_assoc3(p5, a[5], r6);
    lemma_assoc3(p4, a[4], r5);
    lemma_assoc3(p3, a[3], r4);
    lemma_assoc3(p2, a[2], r3);
    lemma_assoc3(a[0], a[1], r2);
    assert(claims_json_r(c) == a[0] + r1);
}

proof fn lemma_sub_step(sub: Seq<char>, rest: Seq<char>)
    ensures
        claims_sub(json_str(sub) + (",\"cap\":"@ + rest)) == claims_cap(rest, sub),
{
    reveal(claims_sub);
    lemma_stage_str(sub, ",\"cap\":"@, rest);
}

proof fn lemma_cap_step(sub: Seq<char>, cap: Seq<char>, rest: Seq<char>)
    ensures
        claims_cap(json_str(cap) + (",\"grt\":"@ + rest), sub) == claims_grt(rest, sub, cap),
{
    reveal(claims_cap);
    lemma_stage_str(cap, ",\"grt\":"@, rest);
}

proof fn lemma_grt_step(sub: Seq<char>, cap: Seq<char>, grt: bool, rest: Seq<char>)
    ensures
        claims_grt(json_bool(grt) + (",\"aud\":"@ + rest), sub, cap) == claims_aud(rest, sub, cap, grt),
{
    reveal(claims_grt);
    lemma_stage_bool(grt, ",\"aud\":"@, rest);
}

proof fn lemma_aud_step(sub: Seq<char>, cap: Seq<char>, grt: bool, aud: Seq<char>, rest: Seq<char>)
    ensures
        claims_aud(json_str(aud) + (",\"rsn\":"@ + rest), sub, cap, grt) == claims_rsn(rest, sub, cap, grt, aud),
{
    reveal(claims_aud);
    lemma_stage_str(aud, ",\"rsn\":"@, rest);
}

proof fn lemma_rsn_step(sub: Seq<char>, cap: Seq<char>, grt: bool, aud: Seq<char>, rsn: Option<Seq<char>>, rest: Seq<char>)
    ensures
        claims_rsn(rsn_json(rsn) + (",\"jti\":"@ + rest), sub, cap, grt, aud) == claims_jti(rest, sub, cap, grt, aud, rsn),
{
    reveal(claims_rsn);
    lemma_stage_opt(rsn, ",\"jti\":"@, rest);
}

proof fn lemma_jti_step(c: ClaimsView, rest: Seq<char>)
    ensures
        claims_jti(json_str(c.jti) + (",\"iat\":"@ + rest), c.sub, c.cap, c.grt, c.aud, c.rsn)
            == claims_iat(rest, ClaimsView { sub: c.sub, cap: c.cap, grt: c.grt, aud: c.aud, rsn: c.rsn, jti: c.jti, iat: 0, exp: 0 }),
{
    reveal(claims_jti);
    lemma_stage_str(c.jti, ",\"iat\":"@, rest);
}

proof fn lemma_iat_step(c: ClaimsView, iat: i64, rest: Seq<char>)
    ensures
        claims_iat(json_int(iat) + (",\"exp\":"@ + rest), c) == claims_exp(rest, ClaimsView { iat, ..c }),
{
    reveal(claims_iat);
    reveal_strlit(",\"exp\":");
    lemma_stage_int(iat, ",\"exp\":"@, rest);
}

proof fn lemma_exp_step(c: ClaimsView, exp: i64)
    ensures
        claims_exp(json_int(exp) + "}"@, c) == Some(ClaimsView { exp, ..c }),
{
    reveal(claims_exp);
    reveal_strlit("}");
    lemma_int_round_trip(exp, "}"@);
}

/// Written claims read back as themselves.
pub proof fn lemma_claims_round_trip(c: ClaimsView)
    ensures
        parse_claims(claims_json(c)) == Some(c),
{
    lemma_claims_json_r(c);
    let t14 = json_int(c.exp) + "}"@;
    let t12 = json_int(c.iat) + (",\"exp\":"@ + t14);
    let t10 = json_str(c.jti) + (",\"iat\":"@ + t12);
    let t8 = rsn_json(c.rsn) + (",\"jti\":"@ + t10);
    let t6 = json_str(c.aud) + (",\"rsn\":"@ + t8);
    let t4 = json_bool(c.grt) + (",\"aud\":"@ + t6);
    let t2 = json_str(c.cap) + (",\"grt\":"@ + t4);
    let t1 = json_str(c.sub) + (",\"cap\":"@ + t2);
    lemma_expect("{\"sub\":"@, t1);
    lemma_sub_step(c.sub, t2);
    lemma_cap_step(c.sub, c.cap, t4);
    lemma_grt_step(c.sub, c.cap, c.grt, t6);
    lemma_aud_step(c.sub, c.cap, c.grt, c.aud, t8);
    lemma_rsn_step(c.sub, c.cap, c.grt, c.aud, c.rsn, t10);
    lemma_jti_step(c, t12);
    let c0 = ClaimsView { sub: c.sub, cap: c.cap, grt: c.grt, aud: c.aud, rsn: c.rsn, jti: c.jti, iat: 0, exp: 0 };
    lemma_iat_step(c0, c.iat, t14);
    lemma_exp_step(ClaimsView { iat: c.iat, ..c0 }, c.exp);
}

proof fn lemma_stage_str(v: Seq<char>, lit: Seq<char>, rest: Seq<char>)
    ensures
        parse_json_string(json_str(v) + (lit + rest)) == Some((v, lit + rest)),
        expect(lit + rest, lit) == Some(rest),
{
    lemma_json_string_round_trip(v, lit + rest);
    lemma_expect(lit, rest);
}

proof fn lemma_stage_bool(b: bool, lit: Seq<char>, rest: Seq<char>)
    ensures
        parse_json_bool(json_bool(b) + (lit + rest)) == Some((b, lit + rest)),
        expect(lit + rest, lit) == Some(rest),
{
    lemma_bool_round_trip(b, lit + rest);
    lemma_expect(lit, rest);
}

proof fn lemma_stage_opt(r: Option<Seq<char>>, lit: Seq<char>, rest: Seq<char>)
    ensures
        parse_json_opt_str((match r { Some(x) => json_str(x), None => "null"@ }) + (lit + rest)) == Some((r, lit + rest)),
        expect(lit + rest, lit) == Some(rest),
{
    lemma_opt_str_round_trip(r, lit + rest);
    lemma_expect(lit, rest);
}

proof fn lemma_stage_int(i: i64, lit: Seq<char>, rest: Seq<char>)
    requires
        lit.len() > 0 && lit[0] == ',',
    ensures
        parse_json_int(json_int(i) + (lit + rest)) == Some((i, lit + rest)),
        expect(lit + rest, lit) == Some(rest),
{
    assert((lit + rest)[0] == ',');
    lemma_int_round_trip(i, lit + rest);
    lemma_expect(lit, rest);
}

// ─── Reading, executably ────────────────────────────────────────────────────

fn expect_at(cs: &Vec<char>, pos: usize, lit: &str) -> (r: Option<usize>)
    requires
        pos <= cs@.len(),
    ensures
        match expect(cs@.skip(pos as int), lit@) {
            Some(rest) => r is Some && pos <= r->Some_0 <= cs@.len() && cs@.skip(r->Some_0 as int) == rest,
            None => r is None,
        },
{
    let lc = chars_of(lit);
    if cs.len() - pos < lc.len() {
        return None;
    }
    let mut k: usize = 0;
    while k < lc.len()
        invariant
            k <= lc@.len(),
            lc@ == lit@,
            cs@.len() == cs.len(),
            pos + lc@.len() <= cs@.len(),
            forall|j: int| 0 <= j < k ==> cs@[pos + j] == lc@[j],
        decreases lc@.len() - k,
    {
        if cs[pos + k] != lc[k] {
            proof {
                assert(cs@.skip(pos as int).take(lc@.len() as int)[k as int] != lit@[k as int]);
            }
            return None;
        }
        k = k + 1;
    }
    proof {
        assert(cs@.skip(pos as int).take(lc@.len() as int) =~= lit@);
        assert(cs@.skip(pos as int).skip(lc@.len() as int) =~= cs@.skip(pos + lc@.len()));
    }
    Some(pos + lc.len())
}

fn hex_val_of(c: char) -> (r: Option<u32>)
    ensures
        match hex_val(c) {
            Some(v) => r == Some(v as u32),
            None => r is None,
        },
{
    if '0' <= c && c <= '9' {
        Some((c as u32) - ('0' as u32))
    } else if 'a' <= c && c <= 'f' {
        Some((c as u32) - ('a' as u32) + 10)
    } else if 'A' <= c && c <= 'F' {
        Some((c as u32) - ('A' as u32) + 10)
    } else {
        None
    }
}

fn unescape_of(e: char) -> (r: Option<char>)
    ensures
        r == unescape_simple(e),
{
    if e == '"' {
        Some('"')
    } else if e == '\\' {
        Some('\\')
    } else if e == '/' {
        Some('/')
    } else if e == 'b' {
        Some('\u{8}')
    } else if e == 'f' {
        Some('\u{c}')
    } else if e == 'n' {
        Some('\n')
    } else if e == 'r' {
        Some('\r')
    } else if e == 't' {
        Some('\t')
    } else {
        None
    }
}

#[verifier::external_body]
fn char_of_scalar(v: u32) -> (c: char)
    requires
        v <= 0xFFFF,
        !(0xD800 <= v <= 0xDFFF),
    ensures
        c == v as char,
{
    char::from_u32(v).unwrap()
}

enum StrStep {
    Close,
    Char(char, usize),
    Bad,
}

#[verifier::spinoff_prover]
#[verifier::rlimit(80)]
fn string_step(cs: &Vec<char>, i: usize) -> (r: StrStep)
    requires
        i <= cs@.len(),
    ensures
        match r {
            StrStep::Close => i < cs@.len() && parse_str_body(cs@.skip(i as int)) == Some((Seq::<char>::empty(), cs@.skip(i + 1))),
            StrStep::Char(c, j) => i < j <= cs@.len() && parse_str_body(cs@.skip(i as int)) == match parse_str_body(cs@.skip(j as int)) {
                Some((t, rest)) => Some((seq![c] + t, rest)),
                None => None::<(Seq<char>, Seq<char>)>,
            },
            StrStep::Bad => parse_str_body(cs@.skip(i as int)) is None,
        },
{
    let ghost s = cs@.skip(i as int);
    if i >= cs.len() {
        return StrStep::Bad;
    }
    let c = cs[i];
    proof { assert(s[0] == c); }
    if c == '"' {
        proof { assert(s.drop_first() =~= cs@.skip(i + 1)); }
        return StrStep::Close;
    }
    if c == '\\' {
        if i + 1 >= cs.len() {
            return StrStep::Bad;
        }
        let e = cs[i + 1];
        proof { assert(s[1] == e); }
        if e == 'u' {
            if cs.len() - i < 6 {
                return StrStep::Bad;
            }
            let h0 = hex_val_of(cs[i + 2]);
            let h1 = hex_val_of(cs[i + 3]);
            let h2 = hex_val_of(cs[i + 4]);
            let h3 = hex_val_of(cs[i + 5]);
            proof {
                assert(s[2] == cs@[i + 2] && s[3] == cs@[i + 3] && s[4] == cs@[i + 4] && s[5] == cs@[i + 5]);
            }
            match (h0, h1, h2, h3) {
                (Some(a), Some(b), Some(c2), Some(d)) => {
                    let v = a * 4096 + b * 256 + c2 * 16 + d;
                    if 0xD800 <= v && v <= 0xDFFF {
                        return StrStep::Bad;
                    }
                    let ch = char_of_scalar(v);
                    proof {
                        assert(hex4(s, 2) == Some(v as nat));
                        assert(s.skip(6) =~= cs@.skip(i + 6));
                    }
                    return StrStep::Char(ch, i + 6);
                },
                _ => {
                    return StrStep::Bad;
                },
            }
        }
        match unescape_of(e) {
            Some(x) => {
                proof { assert(s.skip(2) =~= cs@.skip(i + 2)); }
                return StrStep::Char(x, i + 2);
            },
            None => {
                return StrStep::Bad;
            },
        }
    }
    if (c as u32) < 0x20 {
        return StrStep::Bad;
    }
    proof { assert(s.drop_first() =~= cs@.skip(i + 1)); }
    StrStep::Char(c, i + 1)
}

/// The body of a JSON string starting at `pos`, and the position after its
/// closing quote.
fn string_body_at(cs: &Vec<char>, pos: usize) -> (r: Option<(String, usize)>)
    requires
        pos <= cs@.len(),
    ensures
        match parse_str_body(cs@.skip(pos as int)) {
            Some((v, rest)) => r is Some && r->Some_0.0@ == v && r->Some_0.1 <= cs@.len() && cs@.skip(r->Some_0.1 as int) == rest,
            None => r is None,
        },
{
    let mut out: Vec<char> = Vec::new();
    let mut i: usize = pos;
    let n = cs.len();
    loop
        invariant
            n == cs@.len(),
            pos <= i <= cs@.len(),
            parse_str_body(cs@.skip(pos as int)) == match parse_str_body(cs@.skip(i as int)) {
                Some((t, rest)) => Some((out@ + t, rest)),
                None => None::<(Seq<char>, Seq<char>)>,
            },
        decreases cs@.len() - i,
    {
        match string_step(cs, i) {
            StrStep::Close => {
                proof { assert(out@ + Seq::<char>::empty() =~= out@); }
                return Some((string_from(&out), i + 1));
            },
            StrStep::Bad => {
                return None;
            },
            StrStep::Char(c, j) => {
                let ghost before = out@;
                out.push(c);
                proof {
                    assert forall|t: Seq<char>| before + (seq![c] + t) == out@ + t by {
                        assert(before + (seq![c] + t) =~= out@ + t);
                    }
                }
                i = j;
            },
        }
    }
}

proof fn lemma_digit_run_exact(b: Seq<char>, k: int)
    requires
        0 <= k <= b.len(),
        forall|j: int| 0 <= j < k ==> crate::text::is_digit(#[trigger] b[j]),
        k == b.len() || !crate::text::is_digit(b[k]),
    ensures
        digit_run(b) == k,
    decreases k,
{
    if k > 0 {
        assert forall|j: int| 0 <= j < k - 1 implies crate::text::is_digit(#[trigger] b.drop_first()[j]) by {
            assert(b.drop_first()[j] == b[j + 1]);
        }
        if k - 1 < b.drop_first().len() {
            assert(b.drop_first()[k - 1] == b[k]);
        }
        lemma_digit_run_exact(b.drop_first(), k - 1);
    }
}

proof fn lemma_run_bounds(b: Seq<char>, k: int)
    requires
        0 <= k <= b.len(),
        forall|j: int| 0 <= j < k ==> crate::text::is_digit(#[trigger] b[j]),
    ensures
        k <= digit_run(b) <= b.len(),
    decreases b.len(),
{
    if b.len() > 0 {
        if k > 0 {
            assert forall|j: int| 0 <= j < k - 1 implies crate::text::is_digit(#[trigger] b.drop_first()[j]) by {
                assert(b.drop_first()[j] == b[j + 1]);
            }
            lemma_run_bounds(b.drop_first(), k - 1);
        } else {
            lemma_run_bounds(b.drop_first(), 0);
        }
    }
}

proof fn lemma_digits_value_grows(b: Seq<char>, k: int, m: int)
    requires
        0 <= k <= m <= b.len(),
    ensures
        digits_value(b.take(k)) <= digits_value(b.take(m)),
    decreases m - k,
{
    if k < m {
        lemma_digits_value_grows(b, k, m - 1);
        assert(b.take(m).drop_last() =~= b.take(m - 1));
    }
}

fn int_at(cs: &Vec<char>, pos: usize) -> (r: Option<(i64, usize)>)
    requires
        pos <= cs@.len(),
    ensures
        match parse_json_int(cs@.skip(pos as int)) {
            Some((v, rest)) => r is Some && r->Some_0.0 == v && r->Some_0.1 <= cs@.len() && cs@.skip(r->Some_0.1 as int) == rest,
            None => r is None,
        },
{
    let ghost s = cs@.skip(pos as int);
    let n = cs.len();
    let neg = pos < n && cs[pos] == '-';
    let start = if neg { pos + 1 } else { pos };
    let ghost b = cs@.skip(start as int);
    proof {
        if pos < n {
            assert(s[0] == cs@[pos as int]);
        }
        if neg {
            assert(s[0] == '-');
            assert(s.drop_first() =~= b);
        } else {
            assert(s =~= b);
        }
    }
    let bound: u64 = if neg { 0x8000_0000_0000_0000 } else { 0x7fff_ffff_ffff_ffff };
    let mut acc: u64 = 0;
    let mut k: usize = 0;
    while start + k < n && '0' <= cs[start + k] && cs[start + k] <= '9'
        invariant
            n == cs@.len(),
            start <= n,
            start + k <= n,
            b == cs@.skip(start as int),
            forall|j: int| 0 <= j < k ==> crate::text::is_digit(#[trigger] b[j]),
            acc == digits_value(b.take(k as int)),
            acc <= bound,
            bound == (if neg { 0x8000_0000_0000_0000u64 } else { 0x7fff_ffff_ffff_ffffu64 }),
            s == cs@.skip(pos as int),
            neg == (s.len() > 0 && s[0] == '-'),
            b == (if neg { s.drop_first() } else { s }),
        decreases n - start - k,
    {
        let d = (cs[start + k] as u32 - '0' as u32) as u64;
        proof {
            assert(b[k as int] == cs@[start + k]);
            assert(b.take(k + 1).drop_last() =~= b.take(k as int));
            assert(b.take(k + 1).last() == b[k as int]);
        }
        if acc > (bound - d) / 10 {
            proof {
                assert(acc * 10 + d > bound) by (nonlinear_arith)
                    requires acc > (bound - d) / 10, d <= 9, bound >= 9;
                assert(digits_value(b.take(k + 1)) == acc * 10 + d);
                assert(crate::text::is_digit(b[k as int]));
                lemma_run_bounds(b, k + 1);
                lemma_digits_value_grows(b, k + 1, digit_run(b) as int);
            }
            return None;
        }
        proof {
            assert(acc * 10 + d <= bound) by (nonlinear_arith)
                requires acc <= (bound - d) / 10, d <= 9, bound >= 9;
        }
        acc = acc * 10 + d;
        k = k + 1;
    }
    proof {
        if start + k < n {
            assert(b[k as int] == cs@[start + k]);
        }
        lemma_digit_run_exact(b, k as int);
    }
    if k == 0 {
        return None;
    }
    if k > 1 && cs[start] == '0' {
        proof { assert(b[0] == cs@[start as int]); }
        return None;
    }
    proof {
        assert(b[0] == cs@[start as int]);
        assert(b.skip(k as int) =~= cs@.skip(start + k));
    }
    let v: i64 = if neg {
        if acc == 0x8000_0000_0000_0000 { i64::MIN } else { -(acc as i64) }
    } else {
        acc as i64
    };
    Some((v, start + k))
}

fn string_at(cs: &Vec<char>, pos: usize) -> (r: Option<(String, usize)>)
    requires
        pos <= cs@.len(),
    ensures
        match parse_json_string(cs@.skip(pos as int)) {
            Some((v, rest)) => r is Some && r->Some_0.0@ == v && r->Some_0.1 <= cs@.len() && cs@.skip(r->Some_0.1 as int) == rest,
            None => r is None,
        },
{
    if pos < cs.len() && cs[pos] == '"' {
        proof {
            assert(cs@.skip(pos as int)[0] == '"');
            assert(cs@.skip(pos as int).drop_first() =~= cs@.skip(pos + 1));
        }
        string_body_at(cs, pos + 1)
    } else {
        proof {
            if pos < cs@.len() {
                assert(cs@.skip(pos as int)[0] == cs@[pos as int]);
            }
        }
        None
    }
}

fn bool_at(cs: &Vec<char>, pos: usize) -> (r: Option<(bool, usize)>)
    requires
        pos <= cs@.len(),
    ensures
        match parse_json_bool(cs@.skip(pos as int)) {
            Some((v, rest)) => r is Some && r->Some_0.0 == v && r->Some_0.1 <= cs@.len() && cs@.skip(r->Some_0.1 as int) == rest,
            None => r is None,
        },
{
    match expect_at(cs, pos, "true") {
        Some(p) => Some((true, p)),
        None => match expect_at(cs, pos, "false") {
            Some(p) => Some((false, p)),
            None => None,
        },
    }
}

fn opt_string_at(cs: &Vec<char>, pos: usize) -> (r: Option<(Option<String>, usize)>)
    requires
        pos <= cs@.len(),
    ensures
        match parse_json_opt_str(cs@.skip(pos as int)) {
            Some((v, rest)) => r is Some && match v {
                    Some(x) => r->Some_0.0 is Some && r->Some_0.0->Some_0@ == x,
                    None => r->Some_0.0 is None,
                } && r->Some_0.1 <= cs@.len() && cs@.skip(r->Some_0.1 as int) == rest,
            None => r is None,
        },
{
    match expect_at(cs, pos, "null") {
        Some(p) => Some((None, p)),
        None => match string_at(cs, pos) {
            Some((v, p)) => Some((Some(v), p)),
            None => None,
        },
    }
}

pub open spec fn opt_view(o: Option<String>) -> Option<Seq<char>> {
    match o {
        Some(x) => Some(x@),
        None => None,
    }
}

pub open spec fn claims_result(r: Option<CapabilityClaims>, want: Option<ClaimsView>) -> bool {
    match want {
        Some(v) => r is Some && r->Some_0@ == v,
        None => r is None,
    }
}

fn read_exp(cs: &Vec<char>, p: usize, sub: String, cap: String, grt: bool, aud: String, rsn: Option<String>, jti: String, iat: i64) -> (r: Option<CapabilityClaims>)
    requires
        p <= cs@.len(),
    ensures
        claims_result(r, claims_exp(cs@.skip(p as int), ClaimsView { sub: sub@, cap: cap@, grt, aud: aud@, rsn: opt_view(rsn), jti: jti@, iat, exp: 0 })),
{
    proof { reveal(claims_exp); reveal_strlit("}"); }
    let (exp, q) = match int_at(cs, p) { Some(x) => x, None => return None };
    if !(q < cs.len() && q + 1 == cs.len() && cs[q] == '}') {
        proof {
            if cs@.skip(q as int) == "}"@ {
                assert(cs@.skip(q as int).len() == 1);
                assert(cs@.skip(q as int)[0] == cs@[q as int]);
            }
        }
        return None;
    }
    proof { assert(cs@.skip(q as int) =~= "}"@); }
    Some(CapabilityClaims { sub, cap, grt, aud, rsn, jti, iat, exp })
}

fn read_iat(cs: &Vec<char>, p: usize, sub: String, cap: String, grt: bool, aud: String, rsn: Option<String>, jti: String) -> (r: Option<CapabilityClaims>)
    requires
        p <= cs@.len(),
    ensures
        claims_result(r, claims_iat(cs@.skip(p as int), ClaimsView { sub: sub@, cap: cap@, grt, aud: aud@, rsn: opt_view(rsn), jti: jti@, iat: 0, exp: 0 })),
{
    proof { reveal(claims_iat); }
    let (iat, q) = match int_at(cs, p) { Some(x) => x, None => return None };
    let q2 = match expect_at(cs, q, ",\"exp\":") { Some(x) => x, None => return None };
    read_exp(cs, q2, sub, cap, grt, aud, rsn, jti, iat)
}

fn read_jti(cs: &Vec<char>, p: usize, sub: String, cap: String, grt: bool, aud: String, rsn: Option<String>) -> (r: Option<CapabilityClaims>)
    requires
        p <= cs@.len(),
    ensures
        claims_result(r, claims_jti(cs@.skip(p as int), sub@, cap@, grt, aud@, opt_view(rsn))),
{
    proof { reveal(claims_jti); }
    let (jti, q) = match string_at(cs, p) { Some(x) => x, None => return None };
    let q2 = match expect_at(cs, q, ",\"iat\":") { Some(x) => x, None => return None };
    read_iat(cs, q2, sub, cap, grt, aud, rsn, jti)
}

fn read_rsn(cs: &Vec<char>, p: usize, sub: String, cap: String, grt: bool, aud: String) -> (r: Option<CapabilityClaims>)
    requires
        p <= cs@.len(),
    ensures
        claims_result(r, claims_rsn(cs@.skip(p as int), sub@, cap@, grt, aud@)),
{
    proof { reveal(claims_rsn); }
    let (rsn, q) = match opt_string_at(cs, p) { Some(x) => x, None => return None };
    let q2 = match expect_at(cs, q, ",\"jti\":") { Some(x) => x, None => return None };
    read_jti(cs, q2, sub, cap, grt, aud, rsn)
}

fn read_aud(cs: &Vec<char>, p: usize, sub: String, cap: String, grt: bool) -> (r: Option<CapabilityClaims>)
    requires
        p <= cs@.len(),
    ensures
        claims_result(r, claims_aud(cs@.skip(p as int), sub@, cap@, grt)),
{
    proof { reveal(claims_aud); }
    let (aud, q) = match string_at(cs, p) { Some(x) => x, None => return None };
    let q2 = match expect_at(cs, q, ",\"rsn\":") { Some(x) => x, None => return None };
    read_rsn(cs, q2, sub, cap, grt, aud)
}

fn read_grt(cs: &Vec<char>, p: usize, sub: String, cap: String) -> (r: Option<CapabilityClaims>)
    requires
        p <= cs@.len(),
    ensures
        claims_result(r, claims_grt(cs@.skip(p as int), sub@, cap@)),
{
    proof { reveal(claims_grt); }
    let (grt, q) = match bool_at(cs, p) { Some(x) => x, None => return None };
    let q2 = match expect_at(cs, q, ",\"aud\":") { Some(x) => x, None => return None };
    read_aud(cs, q2, sub, cap, grt)
}

fn read_cap(cs: &Vec<char>, p: usize, sub: String) -> (r: Option<CapabilityClaims>)
    requires
        p <= cs@.len(),
    ensures
        claims_result(r, claims_cap(cs@.skip(p as int), sub@)),
{
    proof { reveal(claims_cap); }
    let (cap, q) = match string_at(cs, p) { Some(x) => x, None => return None };
    let q2 = match expect_at(cs, q, ",\"grt\":") { Some(x) => x, None => return None };
    read_grt(cs, q2, sub, cap)
}

fn read_sub(cs: &Vec<char>, p: usize) -> (r: Option<CapabilityClaims>)
    requires
        p <= cs@.len(),
    ensures
        claims_result(r, claims_sub(cs@.skip(p as int))),
{
    proof { reveal(claims_sub); }
    let (sub, q) = match string_at(cs, p) { Some(x) => x, None => return None };
    let q2 = match expect_at(cs, q, ",\"cap\":") { Some(x) => x, None => return None };
    read_cap(cs, q2, sub)
}

/// The claims read from their compact JSON text.
pub fn read_claims(text: &str) -> (r: Option<CapabilityClaims>)
    ensures
        claims_result(r, parse_claims(text@)),
{
    let cs = chars_of(text);
    proof { assert(cs@.skip(0) =~= cs@); }
    let p = match expect_at(&cs, 0, "{\"sub\":") { Some(p) => p, None => return None };
    read_sub(&cs, p)
}

} // verus!
