//! The provider's update call, at the byte level: the request URL addressed
//! by domain and record, the JSON body carrying the new address, and the
//! classification of the response.
use vstd::prelude::*;

verus! {

/// The one status code the provider answers on success.
pub const SUCCESS_STATUS: u16 = 200;

/// A failed record update: no response at all, or a response with any status
/// other than the success status.
#[derive(PartialEq, Eq, Structural, Clone, Copy, Debug)]
pub enum UpdateError {
    TransportError,
    BadStatus(u16),
}

/// Classifies a provider response; `None` stands for a transport-level
/// failure that produced no status at all.
pub fn classify_response(status: Option<u16>) -> (r: Result<(), UpdateError>)
    ensures
        (match status {
            None => r == Err::<(), UpdateError>(UpdateError::TransportError),
            Some(code) => if code == SUCCESS_STATUS {
                r == Ok::<(), UpdateError>(())
            } else {
                r == Err::<(), UpdateError>(UpdateError::BadStatus(code))
            },
        }),
{
    match status {
        None => Err(UpdateError::TransportError),
        Some(code) => {
            if code == SUCCESS_STATUS {
                Ok(())
            } else {
                Err(UpdateError::BadStatus(code))
            }
        },
    }
}

/// The lower-case hexadecimal digit for a value below sixteen.
pub open spec fn hex_digit(n: int) -> char {
    if n == 0 {
        '0'
    } else if n == 1 {
        '1'
    } else if n == 2 {
        '2'
    } else if n == 3 {
        '3'
    } else if n == 4 {
        '4'
    } else if n == 5 {
        '5'
    } else if n == 6 {
        '6'
    } else if n == 7 {
        '7'
    } else if n == 8 {
        '8'
    } else if n == 9 {
        '9'
    } else if n == 10 {
        'a'
    } else if n == 11 {
        'b'
    } else if n == 12 {
        'c'
    } else if n == 13 {
        'd'
    } else if n == 14 {
        'e'
    } else {
        'f'
    }
}

/// How one character is written inside a JSON string: quotes and backslashes
/// gain a backslash, control characters become a `\u00..` escape, everything
/// else stands as it is.
pub open spec fn escape_char(c: char) -> Seq<char> {
    if c == '"' {
        seq!['\\', '"']
    } else if c == '\\' {
        seq!['\\', '\\']
    } else if (c as int) < 32 {
        seq!['\\', 'u', '0', '0', hex_digit(c as int / 16), hex_digit(c as int % 16)]
    } else {
        seq![c]
    }
}

/// The one-character string holding the lower-case hexadecimal digit of `x`.
fn hex_char(x: u32) -> (r: &'static str)
    requires
        x < 16,
    ensures
        r@ == seq![hex_digit(x as int)],
{
    if x == 0 {
        proof { reveal_strlit("0"); assert("0"@ =~= seq![hex_digit(0)]); }
        "0"
    } else if x == 1 {
        proof { reveal_strlit("1"); assert("1"@ =~= seq![hex_digit(1)]); }
        "1"
    } else if x == 2 {
        proof { reveal_strlit("2"); assert("2"@ =~= seq![hex_digit(2)]); }
        "2"
    } else if x == 3 {
        proof { reveal_strlit("3"); assert("3"@ =~= seq![hex_digit(3)]); }
        "3"
    } else if x == 4 {
        proof { reveal_strlit("4"); assert("4"@ =~= seq![hex_digit(4)]); }
        "4"
    } else if x == 5 {
        proof { reveal_strlit("5"); assert("5"@ =~= seq![hex_digit(5)]); }
        "5"
    } else if x == 6 {
        proof { reveal_strlit("6"); assert("6"@ =~= seq![hex_digit(6)]); }
        "6"
    } else if x == 7 {
        proof { reveal_strlit("7"); assert("7"@ =~= seq![hex_digit(7)]); }
        "7"
    } else if x == 8 {
        proof { reveal_strlit("8"); assert("8"@ =~= seq![hex_digit(8)]); }
        "8"
    } else if x == 9 {
        proof { reveal_strlit("9"); assert("9"@ =~= seq![hex_digit(9)]); }
        "9"
    } else if x == 10 {
        proof { reveal_strlit("a"); assert("a"@ =~= seq![hex_digit(10)]); }
        "a"
    } else if x == 11 {
        proof { reveal_strlit("b"); assert("b"@ =~= seq![hex_digit(11)]); }
        "b"
    } else if x == 12 {
        proof { reveal_strlit("c"); assert("c"@ =~= seq![hex_digit(12)]); }
        "c"
    } else if x == 13 {
        proof { reveal_strlit("d"); assert("d"@ =~= seq![hex_digit(13)]); }
        "d"
    } else if x == 14 {
        proof { reveal_strlit("e"); assert("e"@ =~= seq![hex_digit(14)]); }
        "e"
    } else {
        proof { reveal_strlit("f"); assert("f"@ =~= seq![hex_digit(15)]); }
        "f"
    }
}

/// A string written inside a JSON string, character by character.
pub open spec fn escape_string(s: Seq<char>) -> Seq<char>
    decreases s.len(),
{
    if s.len() == 0 {
        Seq::empty()
    } else {
        escape_string(s.drop_last()) + escape_char(s.last())
    }
}

/// Escapes `s` for embedding inside a JSON string literal.
pub fn json_escape(s: &str) -> (r: String)
    ensures
        r@ == escape_string(s@),
{
    let n = s.unicode_len();
    let mut out = String::new();
    let mut i: usize = 0;
    proof {
        assert(s@.subrange(0, 0) =~= Seq::<char>::empty());
    }
    while i < n
        invariant
            i <= n,
            n == s@.len(),
            out@ == escape_string(s@.subrange(0, i as int)),
        decreases n - i,
    {
        let c = s.get_char(i);
        proof {
            let pre = s@.subrange(0, i + 1);
            assert(pre.drop_last() =~= s@.subrange(0, i as int));
            assert(pre.last() == s@[i as int]);
        }
        if c == '"' {
            out.append("\\\"");
            proof {
                reveal_strlit("\\\"");
                assert("\\\""@ =~= escape_char('"'));
            }
        } else if c == '\\' {
            out.append("\\\\");
            proof {
                reveal_strlit("\\\\");
                assert("\\\\"@ =~= escape_char('\\'));
            }
        } else if (c as u32) < 32 {
            let u = c as u32;
            out.append("\\u00");
            let hi = hex_char(u / 16);
            out.append(hi);
            let lo = hex_char(u % 16);
            out.append(lo);
            proof {
                reveal_strlit("\\u00");
                assert("\\u00"@ =~= seq!['\\', 'u', '0', '0']);
                assert("\\u00"@ + hi@ + lo@ =~= escape_char(s@[i as int]));
            }
        } else {
            let piece = s.substring_char(i, i + 1);
            out.append(piece);
            proof {
                assert(piece@ =~= escape_char(s@[i as int]));
            }
        }
        i += 1;
    }
    proof {
        assert(s@.subrange(0, n as int) =~= s@);
    }
    out
}

/// The provider's record-update URL for one (domain, record) pair.
pub open spec fn update_url_spec(domain_id: Seq<char>, record_id: Seq<char>) -> Seq<char> {
    "https://www.lima-city.de/usercp/domains/"@ + domain_id + "/records/"@ + record_id
}

/// Builds the update URL addressing `record_id` under `domain_id`.
pub fn update_url(domain_id: &str, record_id: &str) -> (r: String)
    ensures
        r@ == update_url_spec(domain_id@, record_id@),
{
    let mut u = "https://www.lima-city.de/usercp/domains/".to_owned();
    u.append(domain_id);
    u.append("/records/");
    u.append(record_id);
    u
}

/// The JSON body carrying `address` as the record's new content.
pub open spec fn update_body_spec(address: Seq<char>) -> Seq<char> {
    "{\"nameserver_record\":{\"content\":\""@ + escape_string(address) + "\"}}"@
}

/// Builds the update request body for `address`.
pub fn update_body(address: &str) -> (r: String)
    ensures
        r@ == update_body_spec(address@),
{
    let mut b = "{\"nameserver_record\":{\"content\":\"".to_owned();
    let esc = json_escape(address);
    b.append(esc.as_str());
    b.append("\"}}");
    b
}

} // verus!
