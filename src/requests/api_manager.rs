//! One credential and the requests it signs.
use vstd::prelude::*;
use vstd::string::StringExecFns;

verus! {

pub const API_VERSION: &'static str = "5.130";

pub const API_SERVER: &'static str = "https://api.vk.com/method";

/// A decimal digit `d` (`0 <= d < 10`) as a character.
pub open spec fn digit_char(d: int) -> char {
    if d == 0 {
        '0'
    } else if d == 1 {
        '1'
    } else if d == 2 {
        '2'
    } else if d == 3 {
        '3'
    } else if d == 4 {
        '4'
    } else if d == 5 {
        '5'
    } else if d == 6 {
        '6'
    } else if d == 7 {
        '7'
    } else if d == 8 {
        '8'
    } else {
        '9'
    }
}

/// The decimal digits of `n`, most significant first, without leading zeros.
pub open spec fn digits(n: nat) -> Seq<char>
    decreases n,
{
    if n < 10 {
        seq![digit_char(n as int)]
    } else {
        digits(n / 10).push(digit_char((n % 10) as int))
    }
}

/// `n` written in decimal, with a leading `-` when negative.
pub open spec fn decimal(n: int) -> Seq<char> {
    if n < 0 {
        seq!['-'] + digits((-n) as nat)
    } else {
        digits(n as nat)
    }
}

/// The decimal forms of `ids`, separated by commas.
pub open spec fn comma_joined(ids: Seq<i32>) -> Seq<char>
    decreases ids.len(),
{
    if ids.len() == 0 {
        Seq::empty()
    } else if ids.len() == 1 {
        decimal(ids[0] as int)
    } else {
        comma_joined(ids.drop_last()) + seq![','] + decimal(ids.last() as int)
    }
}

/// The text of each query parameter, name and value.
pub open spec fn param_views(params: Seq<(String, String)>) -> Seq<(Seq<char>, Seq<char>)> {
    params.map_values(|p: (String, String)| (p.0@, p.1@))
}

/// The digit `d` as a one-character string.
fn digit_str(d: u64) -> (r: &'static str)
    requires
        d < 10,
    ensures
        r@ == seq![digit_char(d as int)],
{
    if d == 0 {
        proof {
            reveal_strlit("0");
        }
        "0"
    } else if d == 1 {
        proof {
            reveal_strlit("1");
        }
        "1"
    } else if d == 2 {
        proof {
            reveal_strlit("2");
        }
        "2"
    } else if d == 3 {
        proof {
            reveal_strlit("3");
        }
        "3"
    } else if d == 4 {
        proof {
            reveal_strlit("4");
        }
        "4"
    } else if d == 5 {
        proof {
            reveal_strlit("5");
        }
        "5"
    } else if d == 6 {
        proof {
            reveal_strlit("6");
        }
        "6"
    } else if d == 7 {
        proof {
            reveal_strlit("7");
        }
        "7"
    } else if d == 8 {
        proof {
            reveal_strlit("8");
        }
        "8"
    } else {
        proof {
            reveal_strlit("9");
        }
        "9"
    }
}

/// The decimal digits of `n`.
fn digits_of(n: u64) -> (r: String)
    ensures
        r@ == digits(n as nat),
    decreases n,
{
    if n < 10 {
        String::from_str(digit_str(n))
    } else {
        let mut s = digits_of(n / 10);
        s.append(digit_str(n % 10));
        s
    }
}

/// `n` as a decimal string.
pub fn to_decimal(n: i32) -> (r: String)
    ensures
        r@ == decimal(n as int),
{
    if n < 0 {
        let magnitude: u64 = (0 - (n as i64)) as u64;
        let mut s = String::from_str("-");
        proof {
            reveal_strlit("-");
        }
        let d = digits_of(magnitude);
        s.append(d.as_str());
        s
    } else {
        digits_of(n as u64)
    }
}

/// The value of the `user_ids` parameter: `ids` in decimal, joined by commas.
pub fn join_ids(ids: &Vec<i32>) -> (r: String)
    ensures
        r@ == comma_joined(ids@),
{
    let mut out = String::from_str("");
    let mut i: usize = 0;
    proof {
        reveal_strlit("");
        assert(ids@.subrange(0, 0) =~= Seq::<i32>::empty());
    }
    while i < ids.len()
        invariant
            i <= ids@.len(),
            out@ == comma_joined(ids@.subrange(0, i as int)),
        decreases ids@.len() - i,
    {
        let piece = to_decimal(ids[i]);
        proof {
            assert(ids@.subrange(0, i + 1).drop_last() =~= ids@.subrange(0, i as int));
        }
        if i > 0 {
            out.append(",");
            proof {
                reveal_strlit(",");
            }
        }
        out.append(piece.as_str());
        i = i + 1;
        proof {
            assert(out@ =~= comma_joined(ids@.subrange(0, i as int)));
        }
    }
    proof {
        assert(ids@.subrange(0, ids@.len() as int) =~= ids@);
    }
    out
}

/// A query parameter whose name is a literal.
pub fn param(name: &str, value: String) -> (r: (String, String))
    ensures
        r.0@ == name@,
        r.1@ == value@,
{
    (String::from_str(name), value)
}

/// One credential (an opaque access token) and the API version it speaks.
pub struct ApiManager {
    pub token: String,
    pub version: String,
}

impl ApiManager {
    pub fn new(token: &str, version: &str) -> (r: Self)
        ensures
            r.token@ == token@,
            r.version@ == version@,
    {
        ApiManager { token: String::from_str(token), version: String::from_str(version) }
    }

    /// The address of a remote method: the API base path, a slash, the method.
    pub fn method_url(method: &str) -> (r: String)
        ensures
            r@ == API_SERVER@ + seq!['/'] + method@,
    {
        let mut url = String::from_str(API_SERVER);
        url.append("/");
        proof {
            reveal_strlit("/");
        }
        url.append(method);
        url
    }

    /// The full query of a call: the caller's parameters, then the access
    /// token and the API version, last so that no caller parameter of the
    /// same name can shadow them.
    pub fn query(&self, params: Vec<(String, String)>) -> (r: Vec<(String, String)>)
        ensures
            param_views(r@) == param_views(params@) + seq![
                ("access_token"@, self.token@),
                ("v"@, self.version@),
            ],
    {
        let mut r = params;
        let token = param("access_token", self.token.clone());
        let version = param("v", self.version.clone());
        r.push(token);
        r.push(version);
        proof {
            assert(param_views(r@) =~= param_views(params@) + seq![
                ("access_token"@, self.token@),
                ("v"@, self.version@),
            ]);
        }
        r
    }
}

} // verus!
