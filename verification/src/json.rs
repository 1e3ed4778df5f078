//! Verified JSON text encoding for the pieces the request body needs:
//! escaped strings, arrays of strings, and signed integers.

use vstd::prelude::*;

verus! {

/// The hexadecimal digit character for a value below sixteen (also the
/// decimal digit character for a value below ten).
pub open spec fn spec_hex_digit(n: int) -> char {
    if n == 0 {
        '0'
    } else if n == 1 {
        '1'
    } else if n == 2 {
        '2'
    } else if n == 3 {
        '3'
    } else if n == 4 {
        '4'
    } else if n == 5 {
        '5'
    } else if n == 6 {
        '6'
    } else if n == 7 {
        '7'
    } else if n == 8 {
        '8'
    } else if n == 9 {
        '9'
    } else if n == 10 {
        'a'
    } else if n == 11 {
        'b'
    } else if n == 12 {
        'c'
    } else if n == 13 {
        'd'
    } else if n == 14 {
        'e'
    } else {
        'f'
    }
}

/// The JSON escape of one character: quote and backslash get a backslash
/// escape, the common control characters get their named escapes, any other
/// control character becomes a `\u00XX` escape, and everything else stands
/// for itself.
pub open spec fn spec_escape_char(c: char) -> Seq<char> {
    if c == '"' {
        seq!['\\', '"']
    } else if c == '\\' {
        seq!['\\', '\\']
    } else if c == '\n' {
        seq!['\\', 'n']
    } else if c == '\r' {
        seq!['\\', 'r']
    } else if c == '\t' {
        seq!['\\', 't']
    } else if (c as int) < 32 {
        seq!['\\', 'u', '0', '0', spec_hex_digit(c as int / 16), spec_hex_digit(c as int % 16)]
    } else {
        seq![c]
    }
}

/// The JSON escape of a text: each character escaped in order.
pub open spec fn spec_escape(s: Seq<char>) -> Seq<char>
    decreases s.len(),
{
    if s.len() == 0 {
        Seq::empty()
    } else {
        spec_escape_char(s[0]) + spec_escape(s.skip(1))
    }
}

/// A JSON string literal: the escaped text between double quotes.
pub open spec fn spec_json_string(s: Seq<char>) -> Seq<char> {
    seq!['"'] + spec_escape(s) + seq!['"']
}

/// The elements of a JSON array of strings after the first, each preceded by
/// a comma.
pub open spec fn spec_json_string_rest(es: Seq<Seq<char>>) -> Seq<char>
    decreases es.len(),
{
    if es.len() == 0 {
        Seq::empty()
    } else {
        seq![','] + spec_json_string(es[0]) + spec_json_string_rest(es.skip(1))
    }
}

/// The comma-separated element list of a JSON array of strings.
pub open spec fn spec_json_string_list(es: Seq<Seq<char>>) -> Seq<char> {
    if es.len() == 0 {
        Seq::empty()
    } else {
        spec_json_string(es[0]) + spec_json_string_rest(es.skip(1))
    }
}

/// A JSON array of strings: the element list between square brackets.
pub open spec fn spec_json_string_array(es: Seq<Seq<char>>) -> Seq<char> {
    seq!['['] + spec_json_string_list(es) + seq![']']
}

/// The decimal digits of a natural number, most significant first.
pub open spec fn spec_dec_nat(n: nat) -> Seq<char>
    decreases n,
{
    if n < 10 {
        seq![spec_hex_digit(n as int)]
    } else {
        spec_dec_nat(n / 10) + seq![spec_hex_digit((n % 10) as int)]
    }
}

/// A JSON integer: decimal digits, with a leading minus sign when negative.
pub open spec fn spec_json_int(n: int) -> Seq<char> {
    if n < 0 {
        seq!['-'] + spec_dec_nat((-n) as nat)
    } else {
        spec_dec_nat(n as nat)
    }
}

/// The one-character string for a value below sixteen.
fn hex_digit_str(d: u8) -> (r: &'static str)
    requires
        d < 16,
    ensures
        r@ == seq![spec_hex_digit(d as int)],
{
    match d {
        0 => {
            proof {
                reveal_strlit("0");
                assert("0"@ =~= seq!['0']);
            }
            "0"
        },
        1 => {
            proof {
                reveal_strlit("1");
                assert("1"@ =~= seq!['1']);
            }
            "1"
        },
        2 => {
            proof {
                reveal_strlit("2");
                assert("2"@ =~= seq!['2']);
            }
            "2"
        },
        3 => {
            proof {
                reveal_strlit("3");
                assert("3"@ =~= seq!['3']);
            }
            "3"
        },
        4 => {
            proof {
                reveal_strlit("4");
                assert("4"@ =~= seq!['4']);
            }
            "4"
        },
        5 => {
            proof {
                reveal_strlit("5");
                assert("5"@ =~= seq!['5']);
            }
            "5"
        },
        6 => {
            proof {
                reveal_strlit("6");
                assert("6"@ =~= seq!['6']);
            }
            "6"
        },
        7 => {
            proof {
                reveal_strlit("7");
                assert("7"@ =~= seq!['7']);
            }
            "7"
        },
        8 => {
            proof {
                reveal_strlit("8");
                assert("8"@ =~= seq!['8']);
            }
            "8"
        },
        9 => {
            proof {
                reveal_strlit("9");
                assert("9"@ =~= seq!['9']);
            }
            "9"
        },
        10 => {
            proof {
                reveal_strlit("a");
                assert("a"@ =~= seq!['a']);
            }
            "a"
        },
        11 => {
            proof {
                reveal_strlit("b");
                assert("b"@ =~= seq!['b']);
            }
            "b"
        },
        12 => {
            proof {
                reveal_strlit("c");
                assert("c"@ =~= seq!['c']);
            }
            "c"
        },
        13 => {
            proof {
                reveal_strlit("d");
                assert("d"@ =~= seq!['d']);
            }
            "d"
        },
        14 => {
            proof {
                reveal_strlit("e");
                assert("e"@ =~= seq!['e']);
            }
            "e"
        },
        _ => {
            proof {
                reveal_strlit("f");
                assert("f"@ =~= seq!['f']);
            }
            "f"
        },
    }
}

/// Escape a text for inclusion in a JSON string literal.
fn escaped(s: &str) -> (r: String)
    ensures
        r@ == spec_escape(s@),
{
    let n: usize = s.unicode_len();
    let mut out = String::new();
    let mut i: usize = 0;
    proof {
        assert(s@.skip(0) =~= s@);
        assert(out@ + spec_escape(s@) =~= spec_escape(s@));
    }
    while i < n
        invariant
            i <= n,
            n == s@.len(),
            out@ + spec_escape(s@.skip(i as int)) == spec_escape(s@),
        decreases n - i,
    {
        let c = s.get_char(i);
        proof {
            let t = s@.skip(i as int);
            assert(t[0] == s@[i as int]);
            assert(t.skip(1) =~= s@.skip(i as int + 1));
            assert(spec_escape(t) == spec_escape_char(c) + spec_escape(s@.skip(i as int + 1)));
            assert(out@ + (spec_escape_char(c) + spec_escape(s@.skip(i as int + 1))) =~= (out@
                + spec_escape_char(c)) + spec_escape(s@.skip(i as int + 1)));
        }
        if c == '"' {
            proof {
                reveal_strlit("\\\"");
                assert("\\\""@ =~= seq!['\\', '"']);
            }
            out.append("\\\"");
        } else if c == '\\' {
            proof {
                reveal_strlit("\\\\");
                assert("\\\\"@ =~= seq!['\\', '\\']);
            }
            out.append("\\\\");
        } else if c == '\n' {
            proof {
                reveal_strlit("\\n");
                assert("\\n"@ =~= seq!['\\', 'n']);
            }
            out.append("\\n");
        } else if c == '\r' {
            proof {
                reveal_strlit("\\r");
                assert("\\r"@ =~= seq!['\\', 'r']);
            }
            out.append("\\r");
        } else if c == '\t' {
            proof {
                reveal_strlit("\\t");
                assert("\\t"@ =~= seq!['\\', 't']);
            }
            out.append("\\t");
        } else if (c as u32) < 32 {
            let hi = hex_digit_str((c as u32 / 16) as u8);
            let lo = hex_digit_str((c as u32 % 16) as u8);
            proof {
                reveal_strlit("\\u00");
                assert("\\u00"@ =~= seq!['\\', 'u', '0', '0']);
                assert((("\\u00"@ + hi@) + lo@) =~= spec_escape_char(c));
            }
            out.append("\\u00");
            out.append(hi);
            out.append(lo);
        } else {
            let piece = s.substring_char(i, i + 1);
            proof {
                assert(piece@ =~= seq![c]);
                assert(spec_escape_char(c) == seq![c]);
            }
            out.append(piece);
        }
        i = i + 1;
    }
    proof {
        assert(spec_escape(s@.skip(i as int)) =~= Seq::<char>::empty());
        assert(out@ + Seq::<char>::empty() =~= out@);
    }
    out
}

/// Encode a text as a JSON string literal.
pub fn json_string(s: &str) -> (r: String)
    ensures
        r@ == spec_json_string(s@),
{
    let mut out = String::new();
    proof {
        reveal_strlit("\"");
        assert("\""@ =~= seq!['"']);
    }
    out.append("\"");
    let esc = escaped(s);
    out.append(esc.as_str());
    out.append("\"");
    proof {
        assert(out@ =~= spec_json_string(s@));
    }
    out
}

/// Encode a vector of texts as a JSON array of string literals, in order.
pub fn json_string_array(v: &Vec<String>) -> (r: String)
    ensures
        r@ == spec_json_string_array(v@.map_values(|s: String| s@)),
{
    let ghost es = v@.map_values(|s: String| s@);
    let mut out = String::new();
    proof {
        reveal_strlit("[");
        reveal_strlit("]");
        reveal_strlit(",");
        assert("["@ =~= seq!['[']);
        assert("]"@ =~= seq![']']);
        assert(","@ =~= seq![',']);
    }
    out.append("[");
    if v.len() > 0 {
        let first = json_string(v[0].as_str());
        out.append(first.as_str());
        proof {
            assert(es[0] == v@[0]@);
        }
        let mut k: usize = 1;
        proof {
            assert(out@ + spec_json_string_rest(es.skip(1)) =~= (seq!['['] + spec_json_string(
                es[0],
            )) + spec_json_string_rest(es.skip(1)));
        }
        while k < v.len()
            invariant
                1 <= k <= v.len(),
                es == v@.map_values(|s: String| s@),
                out@ + spec_json_string_rest(es.skip(k as int)) == seq!['['] + spec_json_string_list(
                    es,
                ),
            decreases v.len() - k,
        {
            proof {
                reveal_strlit(",");
                assert(","@ =~= seq![',']);
                let t = es.skip(k as int);
                assert(t[0] == es[k as int]);
                assert(es[k as int] == v@[k as int]@);
                assert(t.skip(1) =~= es.skip(k as int + 1));
                assert(spec_json_string_rest(t) == seq![','] + spec_json_string(es[k as int])
                    + spec_json_string_rest(es.skip(k as int + 1)));
                assert(out@ + ((seq![','] + spec_json_string(es[k as int])) + spec_json_string_rest(
                    es.skip(k as int + 1),
                )) =~= ((out@ + seq![',']) + spec_json_string(es[k as int]))
                    + spec_json_string_rest(es.skip(k as int + 1)));
            }
            out.append(",");
            let elem = json_string(v[k].as_str());
            out.append(elem.as_str());
            k = k + 1;
        }
        proof {
            assert(spec_json_string_rest(es.skip(k as int)) =~= Seq::<char>::empty());
            assert(out@ + Seq::<char>::empty() =~= out@);
        }
    } else {
        proof {
            assert(es.len() == 0);
        }
    }
    out.append("]");
    proof {
        assert(out@ =~= spec_json_string_array(es));
    }
    out
}

/// The decimal digits of an unsigned integer.
fn dec_u32(n: u32) -> (r: String)
    ensures
        r@ == spec_dec_nat(n as nat),
    decreases n,
{
    if n < 10 {
        hex_digit_str(n as u8).to_owned()
    } else {
        let mut r = dec_u32(n / 10);
        r.append(hex_digit_str((n % 10) as u8));
        r
    }
}

/// Encode a signed integer as JSON decimal text.
pub fn json_i32(n: i32) -> (r: String)
    ensures
        r@ == spec_json_int(n as int),
{
    if n < 0 {
        let m: u32 = (-(n as i64)) as u32;
        proof {
            assert(m as nat == (-(n as int)) as nat);
        }
        let mut out = String::new();
        proof {
            reveal_strlit("-");
            assert("-"@ =~= seq!['-']);
        }
        out.append("-");
        let digits = dec_u32(m);
        out.append(digits.as_str());
        proof {
            assert(out@ =~= spec_json_int(n as int));
        }
        out
    } else {
        dec_u32(n as u32)
    }
}

} // verus!
