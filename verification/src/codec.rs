//! The header blob codec.
//!
//! A header collection is persisted as one JSON object of string members,
//! `{"name":"value",...}`, held here as raw bytes. The encoder emits a
//! canonical form: printable ASCII, no whitespace between tokens, `"` and
//! `\` escaped as `\"` and `\\`, and every byte below 0x20 or above 0x7e
//! escaped as `\u00XX` (so the blob is always valid text, whatever bytes a
//! header value holds). The decoder parses exactly that canonical object
//! form back and rejects everything else as a malformed record; decoding is
//! proved to invert encoding.

use vstd::prelude::*;

use crate::ApibotError;

verus! {

/// The ASCII code of a hex digit, lowercase, for a nibble value.
pub open spec fn hex_digit(n: u8) -> u8
    recommends
        n < 16,
{
    if n < 10 {
        (n + 48) as u8
    } else {
        (n + 87) as u8
    }
}

/// How one byte of a header name or value appears inside the JSON string.
pub open spec fn escape_byte(b: u8) -> Seq<u8> {
    if b == 34 {  // '"'
        seq![92u8, 34u8]
    } else if b == 92 {  // '\'
        seq![92u8, 92u8]
    } else if b < 32 || b >= 127 {
        seq![92u8, 117u8, 48u8, 48u8, hex_digit(b / 16), hex_digit(b % 16)]
    } else {
        seq![b]
    }
}

/// A whole name or value, escaped byte by byte.
pub open spec fn escape_bytes(s: Seq<u8>) -> Seq<u8>
    decreases s.len(),
{
    if s.len() == 0 {
        Seq::empty()
    } else {
        escape_byte(s[0]) + escape_bytes(s.drop_first())
    }
}

/// A JSON string token: the escaped bytes between two quotes.
pub open spec fn quote_bytes(s: Seq<u8>) -> Seq<u8> {
    seq![34u8] + escape_bytes(s) + seq![34u8]
}

/// One object member, `"name":"value"`.
pub open spec fn encode_pair(k: Seq<u8>, v: Seq<u8>) -> Seq<u8> {
    quote_bytes(k) + seq![58u8] + quote_bytes(v)
}

/// The members of the object, comma-separated.
pub open spec fn encode_pairs(ps: Seq<(Seq<u8>, Seq<u8>)>) -> Seq<u8>
    decreases ps.len(),
{
    if ps.len() == 0 {
        Seq::empty()
    } else if ps.len() == 1 {
        encode_pair(ps[0].0, ps[0].1)
    } else {
        encode_pair(ps[0].0, ps[0].1) + seq![44u8] + encode_pairs(ps.drop_first())
    }
}

/// The canonical JSON object a header collection is stored as.
pub open spec fn encode_header(ps: Seq<(Seq<u8>, Seq<u8>)>) -> Seq<u8> {
    seq![123u8] + encode_pairs(ps) + seq![125u8]
}

/// The byte sequences of a vector of header pairs.
pub open spec fn pairs_view(hs: Seq<(Vec<u8>, Vec<u8>)>) -> Seq<(Seq<u8>, Seq<u8>)> {
    hs.map_values(|p: (Vec<u8>, Vec<u8>)| (p.0@, p.1@))
}

proof fn lemma_escape_bytes_push(s: Seq<u8>, b: u8)
    ensures
        escape_bytes(s.push(b)) == escape_bytes(s) + escape_byte(b),
    decreases s.len(),
{
    if s.len() == 0 {
        assert(escape_bytes(s) == Seq::<u8>::empty());
        assert(s.push(b) =~= seq![b]);
        assert(seq![b].drop_first() =~= Seq::<u8>::empty());
        assert(escape_bytes(seq![b]) == escape_byte(b) + escape_bytes(Seq::<u8>::empty()));
        assert(escape_bytes(s.push(b)) =~= escape_bytes(s) + escape_byte(b));
    } else {
        assert(s.push(b).drop_first() =~= s.drop_first().push(b));
        lemma_escape_bytes_push(s.drop_first(), b);
        assert(escape_bytes(s.push(b)) =~= escape_bytes(s) + escape_byte(b));
    }
}

proof fn lemma_encode_pairs_push(ps: Seq<(Seq<u8>, Seq<u8>)>, p: (Seq<u8>, Seq<u8>))
    ensures
        ps.len() == 0 ==> encode_pairs(ps.push(p)) == encode_pair(p.0, p.1),
        ps.len() > 0 ==> encode_pairs(ps.push(p)) == encode_pairs(ps) + seq![44u8] + encode_pair(
            p.0,
            p.1,
        ),
    decreases ps.len(),
{
    if ps.len() == 0 {
        assert(ps.push(p) =~= seq![p]);
    } else {
        assert(ps.push(p).drop_first() =~= ps.drop_first().push(p));
        lemma_encode_pairs_push(ps.drop_first(), p);
        if ps.len() == 1 {
            assert(encode_pairs(ps.push(p)) =~= encode_pairs(ps) + seq![44u8] + encode_pair(
                p.0,
                p.1,
            ));
        } else {
            assert(encode_pairs(ps.push(p)) =~= encode_pairs(ps) + seq![44u8] + encode_pair(
                p.0,
                p.1,
            ));
        }
    }
}

/// Whether a byte is an ASCII hex digit (either case is read back).
pub open spec fn is_hex_digit(d: u8) -> bool {
    (48 <= d && d <= 57) || (97 <= d && d <= 102) || (65 <= d && d <= 70)
}

/// The nibble value of an ASCII hex digit.
pub open spec fn unhex(d: u8) -> u8
    recommends
        is_hex_digit(d),
{
    if 48 <= d && d <= 57 {
        (d - 48) as u8
    } else if 97 <= d && d <= 102 {
        (d - 87) as u8
    } else {
        (d - 55) as u8
    }
}

/// Parse the inside of a JSON string token up to and including the closing
/// quote: the decoded bytes and the input left after the quote. `None` is
/// every input that is not in the canonical form the encoder emits.
pub open spec fn parse_string_body(s: Seq<u8>) -> Option<(Seq<u8>, Seq<u8>)>
    decreases s.len(),
{
    if s.len() == 0 {
        None
    } else if s[0] == 34 {
        Some((Seq::empty(), s.drop_first()))
    } else if s[0] == 92 {
        if s.len() >= 2 && (s[1] == 34 || s[1] == 92) {
            match parse_string_body(s.skip(2)) {
                None => None,
                Some((t, r)) => Some((seq![s[1]] + t, r)),
            }
        } else if s.len() >= 6 && s[1] == 117 && s[2] == 48 && s[3] == 48 && is_hex_digit(s[4])
            && is_hex_digit(s[5]) {
            match parse_string_body(s.skip(6)) {
                None => None,
                Some((t, r)) => Some((seq![(unhex(s[4]) * 16 + unhex(s[5])) as u8] + t, r)),
            }
        } else {
            None
        }
    } else if s[0] < 32 || s[0] >= 127 {
        None
    } else {
        match parse_string_body(s.drop_first()) {
            None => None,
            Some((t, r)) => Some((seq![s[0]] + t, r)),
        }
    }
}

/// Parse one JSON string token, opening quote included.
pub open spec fn parse_string(s: Seq<u8>) -> Option<(Seq<u8>, Seq<u8>)> {
    if s.len() > 0 && s[0] == 34 {
        parse_string_body(s.drop_first())
    } else {
        None
    }
}

/// A string token always consumes input: what is left is strictly shorter.
pub proof fn lemma_parse_string_body_shrinks(s: Seq<u8>)
    ensures
        parse_string_body(s) matches Some(p) ==> p.1.len() < s.len(),
    decreases s.len(),
{
    if s.len() == 0 {
    } else if s[0] == 34 {
    } else if s[0] == 92 {
        if s.len() >= 2 && (s[1] == 34 || s[1] == 92) {
            lemma_parse_string_body_shrinks(s.skip(2));
        } else if s.len() >= 6 && s[1] == 117 && s[2] == 48 && s[3] == 48 && is_hex_digit(s[4])
            && is_hex_digit(s[5]) {
            lemma_parse_string_body_shrinks(s.skip(6));
        }
    } else {
        lemma_parse_string_body_shrinks(s.drop_first());
    }
}

/// Same fact for a whole string token.
pub proof fn lemma_parse_string_shrinks(s: Seq<u8>)
    ensures
        parse_string(s) matches Some(p) ==> p.1.len() < s.len() - 1,
{
    if s.len() > 0 && s[0] == 34 {
        lemma_parse_string_body_shrinks(s.drop_first());
    }
}

/// Parse the members of a non-empty JSON object: `"k":"v"` pairs separated
/// by commas, ending at the closing brace, which must end the input.
pub open spec fn parse_members(s: Seq<u8>) -> Option<Seq<(Seq<u8>, Seq<u8>)>>
    decreases s.len(),
    via parse_members_decreases
{
    match parse_string(s) {
        None => None,
        Some((k, r1)) => if r1.len() > 0 && r1[0] == 58 {
            match parse_string(r1.drop_first()) {
                None => None,
                Some((v, r2)) => if r2.len() == 1 && r2[0] == 125 {
                    Some(seq![(k, v)])
                } else if r2.len() > 0 && r2[0] == 44 {
                    match parse_members(r2.drop_first()) {
                        None => None,
                        Some(ps) => Some(seq![(k, v)] + ps),
                    }
                } else {
                    None
                },
            }
        } else {
            None
        },
    }
}

#[via_fn]
proof fn parse_members_decreases(s: Seq<u8>) {
    lemma_parse_string_shrinks(s);
    if let Some((k, r1)) = parse_string(s) {
        if r1.len() > 0 && r1[0] == 58 {
            lemma_parse_string_shrinks(r1.drop_first());
        }
    }
}

/// Parse a stored header blob: the canonical JSON object of string members.
pub open spec fn parse_header(s: Seq<u8>) -> Result<Seq<(Seq<u8>, Seq<u8>)>, ApibotError> {
    if s.len() == 2 && s[0] == 123 && s[1] == 125 {
        Ok(Seq::empty())
    } else if s.len() > 0 && s[0] == 123 {
        match parse_members(s.drop_first()) {
            None => Err(ApibotError::MalformedHeaderRecord),
            Some(ps) => Ok(ps),
        }
    } else {
        Err(ApibotError::MalformedHeaderRecord)
    }
}

proof fn lemma_unhex_hex_digit(n: u8)
    requires
        n < 16,
    ensures
        is_hex_digit(hex_digit(n)),
        unhex(hex_digit(n)) == n,
        hex_digit(n) != 34 && hex_digit(n) != 92,
{
}

/// Parsing a string token inverts escaping: the escaped bytes followed by a
/// closing quote and anything else give back exactly the original bytes.
proof fn lemma_parse_escaped(s: Seq<u8>, rest: Seq<u8>)
    ensures
        parse_string_body(escape_bytes(s) + seq![34u8] + rest) == Some((s, rest)),
    decreases s.len(),
{
    if s.len() == 0 {
        assert(escape_bytes(s) + seq![34u8] + rest =~= seq![34u8] + rest);
        assert((seq![34u8] + rest).drop_first() =~= rest);
        assert(s =~= Seq::<u8>::empty());
    } else {
        let b = s[0];
        let tail = escape_bytes(s.drop_first()) + seq![34u8] + rest;
        let u = escape_bytes(s) + seq![34u8] + rest;
        assert(u =~= escape_byte(b) + tail);
        lemma_parse_escaped(s.drop_first(), rest);
        if b == 34 {
            assert(u[0] == 92 && u.len() >= 2 && u[1] == 34);
            assert(u.skip(2) =~= tail);
            assert(seq![u[1]] + s.drop_first() =~= s);
        } else if b == 92 {
            assert(u[0] == 92 && u.len() >= 2 && u[1] == 92);
            assert(u.skip(2) =~= tail);
            assert(seq![u[1]] + s.drop_first() =~= s);
        } else if b < 32 || b >= 127 {
            lemma_unhex_hex_digit(b / 16);
            lemma_unhex_hex_digit(b % 16);
            assert(u[0] == 92 && u.len() >= 6 && u[1] == 117 && u[2] == 48 && u[3] == 48);
            assert(u[4] == hex_digit(b / 16) && u[5] == hex_digit(b % 16));
            assert(u.skip(6) =~= tail);
            assert((unhex(u[4]) * 16 + unhex(u[5])) as u8 == b);
            assert(seq![(unhex(u[4]) * 16 + unhex(u[5])) as u8] + s.drop_first() =~= s);
        } else {
            assert(u[0] == b);
            assert(u.drop_first() =~= tail);
            assert(seq![u[0]] + s.drop_first() =~= s);
        }
    }
}

/// Parsing a whole string token inverts quoting.
proof fn lemma_parse_quoted(s: Seq<u8>, rest: Seq<u8>)
    ensures
        parse_string(quote_bytes(s) + rest) == Some((s, rest)),
{
    let u = quote_bytes(s) + rest;
    assert(u[0] == 34);
    assert(u.drop_first() =~= escape_bytes(s) + seq![34u8] + rest);
    lemma_parse_escaped(s, rest);
}

proof fn lemma_encode_pairs_len(ps: Seq<(Seq<u8>, Seq<u8>)>)
    ensures
        ps.len() > 0 ==> encode_pairs(ps).len() >= 5,
    decreases ps.len(),
{
    if ps.len() > 1 {
        lemma_encode_pairs_len(ps.drop_first());
    }
}

/// Parsing the members inverts encoding them, for a non-empty collection.
proof fn lemma_parse_members_inverts(ps: Seq<(Seq<u8>, Seq<u8>)>)
    requires
        ps.len() >= 1,
    ensures
        parse_members(encode_pairs(ps) + seq![125u8]) == Some(ps),
    decreases ps.len(),
{
    let k = ps[0].0;
    let v = ps[0].1;
    if ps.len() == 1 {
        let u = encode_pairs(ps) + seq![125u8];
        assert(u =~= quote_bytes(k) + (seq![58u8] + quote_bytes(v) + seq![125u8]));
        lemma_parse_quoted(k, seq![58u8] + quote_bytes(v) + seq![125u8]);
        let r1 = seq![58u8] + quote_bytes(v) + seq![125u8];
        assert(r1[0] == 58);
        assert(r1.drop_first() =~= quote_bytes(v) + seq![125u8]);
        lemma_parse_quoted(v, seq![125u8]);
        assert(seq![125u8].len() == 1 && seq![125u8][0] == 125);
        assert(seq![(k, v)] =~= ps);
    } else {
        let u = encode_pairs(ps) + seq![125u8];
        let after = encode_pairs(ps.drop_first()) + seq![125u8];
        assert(u =~= quote_bytes(k) + (seq![58u8] + quote_bytes(v) + seq![44u8] + after));
        lemma_parse_quoted(k, seq![58u8] + quote_bytes(v) + seq![44u8] + after);
        let r1 = seq![58u8] + quote_bytes(v) + seq![44u8] + after;
        assert(r1[0] == 58);
        assert(r1.drop_first() =~= quote_bytes(v) + (seq![44u8] + after));
        lemma_parse_quoted(v, seq![44u8] + after);
        let r2 = seq![44u8] + after;
        lemma_encode_pairs_len(ps.drop_first());
        assert(r2.len() > 1);
        assert(r2[0] == 44);
        assert(r2.drop_first() =~= after);
        lemma_parse_members_inverts(ps.drop_first());
        assert(seq![(k, v)] + ps.drop_first() =~= ps);
    }
}

/// Decoding inverts encoding: the canonical JSON object a header collection
/// is stored as always parses back to exactly that collection.
pub proof fn lemma_header_round_trip(ps: Seq<(Seq<u8>, Seq<u8>)>)
    ensures
        parse_header(encode_header(ps)) == Ok::<Seq<(Seq<u8>, Seq<u8>)>, ApibotError>(ps),
{
    let u = encode_header(ps);
    if ps.len() == 0 {
        assert(u =~= seq![123u8, 125u8]);
        assert(ps =~= Seq::<(Seq<u8>, Seq<u8>)>::empty());
    } else {
        lemma_encode_pairs_len(ps);
        assert(u.len() > 2 && u[0] == 123);
        assert(u.drop_first() =~= encode_pairs(ps) + seq![125u8]);
        lemma_parse_members_inverts(ps);
    }
}

fn unhex_exec(d: u8) -> (r: u8)
    requires
        is_hex_digit(d),
    ensures
        r == unhex(d),
        r < 16,
{
    if d <= 57 {
        d - 48
    } else if d >= 97 {
        d - 87
    } else {
        d - 55
    }
}

/// Parse one string token of `s` starting at byte `i`: on success, the
/// decoded bytes and the index just past the closing quote.
fn parse_string_at(s: &Vec<u8>, i: usize) -> (r: Option<(Vec<u8>, usize)>)
    requires
        i <= s@.len(),
    ensures
        match r {
            Some(p) => i < p.1 <= s@.len() && parse_string(s@.skip(i as int)) == Some(
                (p.0@, s@.skip(p.1 as int)),
            ),
            None => parse_string(s@.skip(i as int)) is None,
        },
{
    let n = s.len();
    if i >= n {
        return None;
    }
    if s[i] != 34 {
        proof {
            assert(s@.skip(i as int)[0] == s@[i as int]);
        }
        return None;
    }
    proof {
        assert(s@.skip(i as int)[0] == 34);
        assert(s@.skip(i as int).drop_first() =~= s@.skip(i + 1));
    }
    let mut cur: usize = i + 1;
    let mut out: Vec<u8> = Vec::new();
    loop
        invariant
            i < n == s@.len() && s@[i as int] == 34,
            i + 1 <= cur <= n,
            ({
                let rem = parse_string_body(s@.skip(cur as int));
                match rem {
                    Some(p) => parse_string_body(s@.skip(i + 1)) == Some((out@ + p.0, p.1)),
                    None => parse_string_body(s@.skip(i + 1)) is None,
                }
            }),
        decreases n - cur,
    {
        proof {
            assert(s@.skip(i as int)[0] == 34);
            assert(s@.skip(i as int).drop_first() =~= s@.skip(i + 1));
            assert(s@.skip(cur as int).len() == n - cur);
            if cur < n {
                assert(s@.skip(cur as int)[0] == s@[cur as int]);
            }
        }
        if cur >= n {
            return None;
        }
        let b = s[cur];
        if b == 34 {
            proof {
                assert(s@.skip(cur as int).drop_first() =~= s@.skip(cur + 1));
                assert(out@ + Seq::<u8>::empty() =~= out@);
            }
            return Some((out, cur + 1));
        }
        if b == 92 {
            proof {
                if n - cur >= 2 {
                    assert(s@.skip(cur as int)[1] == s@[cur + 1]);
                }
            }
            if n - cur < 2 {
                return None;
            }
            let e = s[cur + 1];
            if e == 34 || e == 92 {
                proof {
                    assert(s@.skip(cur as int).skip(2) =~= s@.skip(cur + 2));
                    let rem = parse_string_body(s@.skip(cur + 2));
                    if rem is Some {
                        assert(out@.push(e) + rem->Some_0.0 =~= out@ + (seq![e] + rem->Some_0.0));
                    }
                }
                out.push(e);
                cur = cur + 2;
            } else if e == 117 {
                proof {
                    assert(s@.skip(cur as int).len() >= 2);
                    if n - cur >= 6 {
                        assert(s@.skip(cur as int)[2] == s@[cur + 2]);
                        assert(s@.skip(cur as int)[3] == s@[cur + 3]);
                        assert(s@.skip(cur as int)[4] == s@[cur + 4]);
                        assert(s@.skip(cur as int)[5] == s@[cur + 5]);
                    }
                }
                if n - cur < 6 {
                    return None;
                }
                let h2 = s[cur + 2];
                let h3 = s[cur + 3];
                let h4 = s[cur + 4];
                let h5 = s[cur + 5];
                let hex4 = (48 <= h4 && h4 <= 57) || (97 <= h4 && h4 <= 102) || (65 <= h4 && h4
                    <= 70);
                let hex5 = (48 <= h5 && h5 <= 57) || (97 <= h5 && h5 <= 102) || (65 <= h5 && h5
                    <= 70);
                if !(h2 == 48 && h3 == 48 && hex4 && hex5) {
                    return None;
                }
                let d = unhex_exec(h4) * 16 + unhex_exec(h5);
                proof {
                    assert(s@.skip(cur as int).skip(6) =~= s@.skip(cur + 6));
                    let rem = parse_string_body(s@.skip(cur + 6));
                    if rem is Some {
                        assert(out@.push(d) + rem->Some_0.0 =~= out@ + (seq![d] + rem->Some_0.0));
                    }
                }
                out.push(d);
                cur = cur + 6;
            } else {
                return None;
            }
        } else if b < 32 || b >= 127 {
            return None;
        } else {
            proof {
                assert(s@.skip(cur as int).drop_first() =~= s@.skip(cur + 1));
                let rem = parse_string_body(s@.skip(cur + 1));
                if rem is Some {
                    assert(out@.push(b) + rem->Some_0.0 =~= out@ + (seq![b] + rem->Some_0.0));
                }
            }
            out.push(b);
            cur = cur + 1;
        }
    }
}

/// Deserialize a stored header blob back into its header pairs, or report
/// the record as malformed when the blob is not a canonical JSON object of
/// string members (the corruption signal: normal writes never produce one).
pub fn string_to_headers(s: &Vec<u8>) -> (r: Result<Vec<(Vec<u8>, Vec<u8>)>, ApibotError>)
    ensures
        match r {
            Ok(hs) => parse_header(s@) == Ok::<Seq<(Seq<u8>, Seq<u8>)>, ApibotError>(
                pairs_view(hs@),
            ),
            Err(e) => parse_header(s@) == Err::<Seq<(Seq<u8>, Seq<u8>)>, ApibotError>(e),
        },
{
    let n = s.len();
    if n == 2 && s[0] == 123 && s[1] == 125 {
        let hs: Vec<(Vec<u8>, Vec<u8>)> = Vec::new();
        proof {
            assert(pairs_view(hs@) =~= Seq::<(Seq<u8>, Seq<u8>)>::empty());
        }
        return Ok(hs);
    }
    if n == 0 || s[0] != 123 {
        return Err(ApibotError::MalformedHeaderRecord);
    }
    proof {
        assert(!(s@.len() == 2 && s@[0] == 123 && s@[1] == 125));
    }
    let mut acc: Vec<(Vec<u8>, Vec<u8>)> = Vec::new();
    let mut cur: usize = 1;
    loop
        invariant
            1 <= cur <= n == s@.len(),
            n > 0 && s@[0] == 123,
            !(s@.len() == 2 && s@[0] == 123 && s@[1] == 125),
            ({
                let rem = parse_members(s@.skip(cur as int));
                match rem {
                    Some(ps) => parse_members(s@.skip(1)) == Some(pairs_view(acc@) + ps),
                    None => parse_members(s@.skip(1)) is None,
                }
            }),
        decreases n - cur,
    {
        let kr = parse_string_at(s, cur);
        if kr.is_none() {
            return Err(ApibotError::MalformedHeaderRecord);
        }
        let (k, j) = kr.unwrap();
        proof {
            if j < n {
                assert(s@.skip(j as int)[0] == s@[j as int]);
            }
        }
        if j >= n {
            return Err(ApibotError::MalformedHeaderRecord);
        }
        if s[j] != 58 {
            return Err(ApibotError::MalformedHeaderRecord);
        }
        proof {
            assert(s@.skip(j as int).drop_first() =~= s@.skip(j + 1));
        }
        let vr = parse_string_at(s, j + 1);
        if vr.is_none() {
            return Err(ApibotError::MalformedHeaderRecord);
        }
        let (v, j2) = vr.unwrap();
        proof {
            assert(s@.skip(j2 as int).len() == n - j2);
            if j2 < n {
                assert(s@.skip(j2 as int)[0] == s@[j2 as int]);
            }
        }
        if j2 < n && s[j2] == 125 && j2 + 1 == n {
            proof {
                let ghost kv = (k@, v@);
                assert(pairs_view(acc@.push((k, v))) =~= pairs_view(acc@) + seq![kv]);
            }
            acc.push((k, v));
            proof {
                assert(s@.drop_first() =~= s@.skip(1));
            }
            return Ok(acc);
        } else if j2 < n && s[j2] == 44 {
            proof {
                assert(s@.skip(j2 as int).drop_first() =~= s@.skip(j2 + 1));
                let rem = parse_members(s@.skip(j2 + 1));
                if rem is Some {
                    assert(pairs_view(acc@.push((k, v))) + rem->Some_0 =~= pairs_view(acc@) + (seq![
                        (k@, v@),
                    ] + rem->Some_0));
                }
            }
            acc.push((k, v));
            cur = j2 + 1;
        } else {
            return Err(ApibotError::MalformedHeaderRecord);
        }
    }
}

/// Append the JSON string token for `s` (quotes and escapes included).
fn push_quoted(out: &mut Vec<u8>, s: &Vec<u8>)
    ensures
        final(out)@ == old(out)@ + quote_bytes(s@),
{
    let ghost out0 = out@;
    out.push(34);
    let mut i: usize = 0;
    while i < s.len()
        invariant
            0 <= i <= s@.len(),
            out@ == out0 + seq![34u8] + escape_bytes(s@.take(i as int)),
        decreases s@.len() - i,
    {
        let b = s[i];
        if b == 34 {
            out.push(92);
            out.push(34);
        } else if b == 92 {
            out.push(92);
            out.push(92);
        } else if b < 32 || b >= 127 {
            let hi = b / 16;
            let lo = b % 16;
            out.push(92);
            out.push(117);
            out.push(48);
            out.push(48);
            out.push(if hi < 10 {
                hi + 48
            } else {
                hi + 87
            });
            out.push(if lo < 10 {
                lo + 48
            } else {
                lo + 87
            });
        } else {
            out.push(b);
        }
        proof {
            lemma_escape_bytes_push(s@.take(i as int), s@[i as int]);
            assert(s@.take(i + 1) =~= s@.take(i as int).push(s@[i as int]));
            assert(out@ =~= out0 + seq![34u8] + escape_bytes(s@.take(i + 1)));
        }
        i = i + 1;
    }
    proof {
        assert(s@.take(s@.len() as int) =~= s@);
    }
    out.push(34);
    proof {
        assert(out@ =~= out0 + quote_bytes(s@));
    }
}

/// Serialize a header collection into its canonical stored JSON object.
pub fn headers_to_string(headers: &Vec<(Vec<u8>, Vec<u8>)>) -> (r: Vec<u8>)
    ensures
        r@ == encode_header(pairs_view(headers@)),
{
    let mut out: Vec<u8> = Vec::new();
    out.push(123);
    let mut i: usize = 0;
    while i < headers.len()
        invariant
            0 <= i <= headers@.len(),
            out@ == seq![123u8] + encode_pairs(pairs_view(headers@).take(i as int)),
        decreases headers@.len() - i,
    {
        if i > 0 {
            out.push(44);
        }
        let p = &headers[i];
        push_quoted(&mut out, &p.0);
        out.push(58);
        push_quoted(&mut out, &p.1);
        proof {
            let pv = pairs_view(headers@);
            assert(pv[i as int] == (headers@[i as int].0@, headers@[i as int].1@));
            lemma_encode_pairs_push(pv.take(i as int), pv[i as int]);
            assert(pv.take(i + 1) =~= pv.take(i as int).push(pv[i as int]));
            assert(out@ =~= seq![123u8] + encode_pairs(pv.take(i + 1)));
        }
        i = i + 1;
    }
    out.push(125);
    proof {
        assert(pairs_view(headers@).take(headers@.len() as int) =~= pairs_view(headers@));
        assert(out@ =~= encode_header(pairs_view(headers@)));
    }
    out
}

/// Whether every header name occurs only once.
pub open spec fn unique_names(ps: Seq<(Seq<u8>, Seq<u8>)>) -> bool {
    forall|i: int, j: int| 0 <= i < j < ps.len() ==> (#[trigger] ps[i]).0 != (#[trigger] ps[j]).0
}

/// One step of collapsing: a later pair overwrites the value of an earlier
/// pair with the same name (last write wins), a new name is appended.
pub open spec fn collapse_step(
    acc: Seq<(Seq<u8>, Seq<u8>)>,
    p: (Seq<u8>, Seq<u8>),
) -> Seq<(Seq<u8>, Seq<u8>)> {
    if exists|i: int| 0 <= i < acc.len() && (#[trigger] acc[i]).0 == p.0 {
        let i = choose|i: int| 0 <= i < acc.len() && (#[trigger] acc[i]).0 == p.0;
        acc.update(i, p)
    } else {
        acc.push(p)
    }
}

/// Collapse a header collection to one value per name, last write wins,
/// names kept in first-occurrence order.
pub open spec fn collapse(ps: Seq<(Seq<u8>, Seq<u8>)>) -> Seq<(Seq<u8>, Seq<u8>)>
    decreases ps.len(),
{
    if ps.len() == 0 {
        Seq::empty()
    } else {
        collapse_step(collapse(ps.drop_last()), ps.last())
    }
}

/// Collapsing yields unique names.
pub proof fn lemma_collapse_unique(ps: Seq<(Seq<u8>, Seq<u8>)>)
    ensures
        unique_names(collapse(ps)),
    decreases ps.len(),
{
    if ps.len() > 0 {
        lemma_collapse_unique(ps.drop_last());
        let acc = collapse(ps.drop_last());
        let p = ps.last();
        if exists|i: int| 0 <= i < acc.len() && (#[trigger] acc[i]).0 == p.0 {
            let i = choose|i: int| 0 <= i < acc.len() && (#[trigger] acc[i]).0 == p.0;
            assert(acc.update(i, p)[i].0 == acc[i].0);
            assert(forall|j: int| 0 <= j < acc.len() && j != i ==> acc.update(i, p)[j] == acc[j]);
        }
    }
}

/// Collapsing a collection whose names are already unique changes nothing.
pub proof fn lemma_collapse_identity(ps: Seq<(Seq<u8>, Seq<u8>)>)
    requires
        unique_names(ps),
    ensures
        collapse(ps) == ps,
    decreases ps.len(),
{
    if ps.len() > 0 {
        assert(forall|i: int, j: int|
            0 <= i < j < ps.drop_last().len() ==> (#[trigger] ps.drop_last()[i]).0 != (
            #[trigger] ps.drop_last()[j]).0);
        lemma_collapse_identity(ps.drop_last());
        let acc = ps.drop_last();
        let p = ps.last();
        assert(forall|i: int| 0 <= i < acc.len() ==> (#[trigger] acc[i]).0 == ps[i].0);
        assert(!(exists|i: int| 0 <= i < acc.len() && (#[trigger] acc[i]).0 == p.0));
        assert(acc.push(p) =~= ps);
    }
}

/// Byte-for-byte equality of two byte vectors.
pub fn bytes_eq(a: &Vec<u8>, b: &Vec<u8>) -> (r: bool)
    ensures
        r == (a@ == b@),
{
    if a.len() != b.len() {
        proof {
            assert(a@.len() != b@.len());
        }
        return false;
    }
    let mut i: usize = 0;
    while i < a.len()
        invariant
            0 <= i <= a@.len() == b@.len(),
            forall|j: int| 0 <= j < i ==> a@[j] == b@[j],
        decreases a@.len() - i,
    {
        if a[i] != b[i] {
            return false;
        }
        i = i + 1;
    }
    proof {
        assert(a@ =~= b@);
    }
    true
}

/// Copy a byte vector.
pub fn clone_bytes(v: &Vec<u8>) -> (r: Vec<u8>)
    ensures
        r@ == v@,
{
    let mut r: Vec<u8> = Vec::new();
    let mut i: usize = 0;
    while i < v.len()
        invariant
            0 <= i <= v@.len(),
            r@ == v@.take(i as int),
        decreases v@.len() - i,
    {
        r.push(v[i]);
        proof {
            assert(v@.take(i + 1) =~= v@.take(i as int).push(v@[i as int]));
        }
        i = i + 1;
    }
    proof {
        assert(v@.take(v@.len() as int) =~= v@);
    }
    r
}

/// Collapse a header collection to one value per name: the documented
/// last-write-wins rule, applied before a request is built.
pub fn collapse_headers(headers: &Vec<(Vec<u8>, Vec<u8>)>) -> (r: Vec<(Vec<u8>, Vec<u8>)>)
    ensures
        pairs_view(r@) == collapse(pairs_view(headers@)),
        unique_names(pairs_view(r@)),
{
    let mut acc: Vec<(Vec<u8>, Vec<u8>)> = Vec::new();
    let mut i: usize = 0;
    while i < headers.len()
        invariant
            0 <= i <= headers@.len(),
            pairs_view(acc@) == collapse(pairs_view(headers@).take(i as int)),
            unique_names(pairs_view(acc@)),
        decreases headers@.len() - i,
    {
        let p = &headers[i];
        let k = clone_bytes(&p.0);
        let v = clone_bytes(&p.1);
        let ghost pv = pairs_view(headers@);
        let ghost accv = pairs_view(acc@);
        proof {
            assert(pv.take(i + 1).drop_last() =~= pv.take(i as int));
            assert(pv.take(i + 1).last() == (headers@[i as int].0@, headers@[i as int].1@));
        }
        let mut found: bool = false;
        let mut at: usize = 0;
        let mut j: usize = 0;
        while j < acc.len() && !found
            invariant
                0 <= j <= acc@.len(),
                i < headers@.len(),
                !found ==> forall|l: int|
                    0 <= l < j ==> (#[trigger] pairs_view(acc@)[l]).0 != k@,
                found ==> at < acc@.len() && pairs_view(acc@)[at as int].0 == k@,
                k@ == headers@[i as int].0@,
                accv == pairs_view(acc@),
            decreases acc@.len() - j + (if found { 0int } else { 1int }),
        {
            proof {
                assert(pairs_view(acc@)[j as int].0 == acc@[j as int].0@);
            }
            if bytes_eq(&acc[j].0, &k) {
                found = true;
                at = j;
            } else {
                j = j + 1;
            }
        }
        if found {
            proof {
                let ghost w = (k@, v@);
                assert(exists|l: int| 0 <= l < accv.len() && (#[trigger] accv[l]).0 == w.0);
                let l = choose|l: int| 0 <= l < accv.len() && (#[trigger] accv[l]).0 == w.0;
                assert(l == at) by {
                    if l != at {
                        assert(accv[l].0 == accv[at as int].0);
                    }
                }
                assert(pairs_view(acc@.update(at as int, (k, v))) =~= accv.update(at as int, w));
            }
            acc.set(at, (k, v));
            proof {
                assert(unique_names(pairs_view(acc@))) by {
                    assert(forall|l: int|
                        0 <= l < accv.len() ==> (#[trigger] pairs_view(acc@)[l]).0 == accv[l].0);
                }
            }
        } else {
            proof {
                let ghost w = (k@, v@);
                assert(!(exists|l: int| 0 <= l < accv.len() && (#[trigger] accv[l]).0 == w.0));
                assert(pairs_view(acc@.push((k, v))) =~= accv.push(w));
                assert(unique_names(accv.push(w)));
            }
            acc.push((k, v));
        }
        i = i + 1;
    }
    proof {
        assert(pairs_view(headers@).take(headers@.len() as int) =~= pairs_view(headers@));
    }
    acc
}

} // verus!
