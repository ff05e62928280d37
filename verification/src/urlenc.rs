//! Building the providers' request URLs.
//!
//! The free-text location travels in a query parameter, so its bytes are
//! percent-encoded with the query character set: controls, space, `"`,
//! `#`, `<`, `>` and every non-ASCII byte become `%XX`. The result is
//! ASCII text that is spliced into the endpoint's address.

use vstd::prelude::*;
use vstd::string::*;
use crate::strutil::push_char;

verus! {

/// Whether a byte is written as `%XX` in a query parameter.
pub open spec fn query_escaped(b: u8) -> bool {
    b <= 32 || b >= 127 || b == 34 || b == 35 || b == 60 || b == 62
}

/// The uppercase hex digit for a value below sixteen.
pub open spec fn hex_char(d: int) -> char {
    if d == 0 {
        '0'
    } else if d == 1 {
        '1'
    } else if d == 2 {
        '2'
    } else if d == 3 {
        '3'
    } else if d == 4 {
        '4'
    } else if d == 5 {
        '5'
    } else if d == 6 {
        '6'
    } else if d == 7 {
        '7'
    } else if d == 8 {
        '8'
    } else if d == 9 {
        '9'
    } else if d == 10 {
        'A'
    } else if d == 11 {
        'B'
    } else if d == 12 {
        'C'
    } else if d == 13 {
        'D'
    } else if d == 14 {
        'E'
    } else {
        'F'
    }
}

/// How one byte is written in a query parameter.
pub open spec fn pct_byte(b: u8) -> Seq<char> {
    if query_escaped(b) {
        seq!['%', hex_char(b as int / 16), hex_char(b as int % 16)]
    } else {
        seq![b as char]
    }
}

/// The percent-encoded text of a byte string.
pub open spec fn pct(s: Seq<u8>) -> Seq<char>
    decreases s.len(),
{
    if s.len() == 0 {
        Seq::empty()
    } else {
        pct_byte(s[0]) + pct(s.drop_first())
    }
}

proof fn lemma_pct_snoc(s: Seq<u8>, b: u8)
    ensures
        pct(s.push(b)) == pct(s) + pct_byte(b),
    decreases s.len(),
{
    if s.len() == 0 {
        assert(s.push(b)[0] == b);
        assert(s.push(b).drop_first() =~= Seq::<u8>::empty());
        assert(pct(s.push(b)) == pct_byte(b) + pct(Seq::<u8>::empty()));
        assert(pct(s.push(b)) =~= pct(s) + pct_byte(b));
    } else {
        assert(s.push(b)[0] == s[0]);
        assert(s.push(b).drop_first() =~= s.drop_first().push(b));
        lemma_pct_snoc(s.drop_first(), b);
        assert(pct(s.push(b)) == pct_byte(s[0]) + pct(s.drop_first().push(b)));
        assert(pct(s.push(b)) =~= pct(s) + pct_byte(b));
    }
}

fn hex_char_of(d: u8) -> (c: char)
    requires
        d < 16,
    ensures
        c == hex_char(d as int),
{
    if d == 0 {
        '0'
    } else if d == 1 {
        '1'
    } else if d == 2 {
        '2'
    } else if d == 3 {
        '3'
    } else if d == 4 {
        '4'
    } else if d == 5 {
        '5'
    } else if d == 6 {
        '6'
    } else if d == 7 {
        '7'
    } else if d == 8 {
        '8'
    } else if d == 9 {
        '9'
    } else if d == 10 {
        'A'
    } else if d == 11 {
        'B'
    } else if d == 12 {
        'C'
    } else if d == 13 {
        'D'
    } else if d == 14 {
        'E'
    } else {
        'F'
    }
}

/// Percent-encode a byte string for use as a query parameter.
#[verifier::loop_isolation(false)]
pub fn percent_encode_query(bytes: &[u8]) -> (r: String)
    ensures
        r@ == pct(bytes@),
{
    let n = bytes.len();
    let mut out = String::new();
    let mut i: usize = 0;
    while i < n
        invariant
            0 <= i <= n,
            out@ == pct(bytes@.take(i as int)),
        decreases n - i,
    {
        let b = bytes[i];
        if b <= 32 || b >= 127 || b == 34 || b == 35 || b == 60 || b == 62 {
            push_char(&mut out, '%');
            push_char(&mut out, hex_char_of(b / 16));
            push_char(&mut out, hex_char_of(b % 16));
        } else {
            push_char(&mut out, b as char);
        }
        proof {
            assert(bytes@.take(i + 1) =~= bytes@.take(i as int).push(bytes@[i as int]));
            lemma_pct_snoc(bytes@.take(i as int), bytes@[i as int]);
            assert(out@ =~= pct(bytes@.take(i + 1)));
        }
        i = i + 1;
    }
    proof {
        assert(bytes@.take(n as int) =~= bytes@);
    }
    out
}

/// The geocoding request for a free-text location.
pub fn geocode_url(location: &str, key: &str) -> (r: String)
    ensures
        r@ == "https://maps.googleapis.com/maps/api/geocode/json?address="@ + pct(
            location.spec_bytes(),
        ) + "&key="@ + key@,
{
    let mut out = String::from_str("https://maps.googleapis.com/maps/api/geocode/json?address=");
    let encoded = percent_encode_query(location.as_bytes());
    out.append(encoded.as_str());
    out.append("&key=");
    out.append(key);
    proof {
        assert(out@ =~= "https://maps.googleapis.com/maps/api/geocode/json?address="@ + pct(
            location.spec_bytes(),
        ) + "&key="@ + key@);
    }
    out
}

/// The forecast request for coordinates already in decimal text.
pub fn forecast_url(key: &str, lat: &str, lon: &str) -> (r: String)
    ensures
        r@ == "https://api.forecast.io/forecast/"@ + key@ + "/"@ + lat@ + ","@ + lon@
            + "?units=si"@,
{
    let mut out = String::from_str("https://api.forecast.io/forecast/");
    out.append(key);
    out.append("/");
    out.append(lat);
    out.append(",");
    out.append(lon);
    out.append("?units=si");
    proof {
        assert(out@ =~= "https://api.forecast.io/forecast/"@ + key@ + "/"@ + lat@ + ","@ + lon@
            + "?units=si"@);
    }
    out
}

/// The direct weather request for a free-text location.
pub fn weather_url(location: &str, key: &str) -> (r: String)
    ensures
        r@ == "https://api.openweathermap.org/data/2.5/weather?q="@ + pct(location.spec_bytes())
            + "&units=metric&appid="@ + key@,
{
    let mut out = String::from_str("https://api.openweathermap.org/data/2.5/weather?q=");
    let encoded = percent_encode_query(location.as_bytes());
    out.append(encoded.as_str());
    out.append("&units=metric&appid=");
    out.append(key);
    proof {
        assert(out@ =~= "https://api.openweathermap.org/data/2.5/weather?q="@ + pct(
            location.spec_bytes(),
        ) + "&units=metric&appid="@ + key@);
    }
    out
}

} // verus!
