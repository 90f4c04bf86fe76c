//! Primality on request: a client names a method and a number, and is
//! told whether the number is prime.

use crate::strings::{contains_text, occurs_in, same_text};
use vstd::arithmetic::div_mod::{lemma_fundamental_div_mod, lemma_mod_multiples_basic};
use vstd::prelude::*;

verus! {

/// Why a request could not be read.
#[derive(Debug, PartialEq)]
pub enum RequestError {
    /// The number was written with a fraction or an exponent.
    FloatingPoint,
    /// Anything else, with the parser's words.
    InvalidJSON(String),
}

/// A request as it was read.
#[derive(Debug, PartialEq, Eq)]
pub struct Request<'a> {
    pub method: &'a str,
    pub number: isize,
}

/// The answer to a request.
#[derive(Debug)]
pub struct Response<'a> {
    pub method: &'a str,
    pub prime: bool,
}

/// One client's conversation.
pub struct Session;

/// The listening side.
pub struct Server;

/// The parser's error.
#[verifier::external_type_specification]
#[verifier::external_body]
pub struct ExJsonError(serde_json::Error);

/// `d` divides `n`.
pub open spec fn divides(d: int, n: int) -> bool {
    n % d == 0
}

/// `n` is prime: greater than one, with no divisor strictly between one
/// and itself.
pub open spec fn prime(n: int) -> bool {
    n > 1 && forall|d: int| 1 < d < n ==> !#[trigger] divides(d, n)
}

/// The words by which the parser reports a number that is no integer.
pub open spec fn float_marker() -> Seq<char> {
    "invalid type: floating point "@
}

/// The method and the verdict that answer a request, or the failure to
/// read one.
///
/// A number that is no integer is not prime.  An unknown method and an
/// unreadable request are malformed.
pub open spec fn answer(request: Result<Request, RequestError>) -> (Seq<char>, bool) {
    match request {
        Ok(r) => if r.method@ == "isPrime"@ {
            ("isPrime"@, prime(r.number as int))
        } else {
            ("malformed"@, false)
        },
        Err(RequestError::FloatingPoint) => ("isPrime"@, false),
        Err(RequestError::InvalidJSON(_)) => ("malformed"@, false),
    }
}

impl<'a> View for Response<'a> {
    type V = (Seq<char>, bool);

    open spec fn view(&self) -> (Seq<char>, bool) {
        (self.method@, self.prime)
    }
}

/// A number with no divisor below `i`, where `i * i` exceeds it, has none
/// at all.
proof fn lemma_prime_by_small_divisors(n: int, i: int)
    requires
        n > 1,
        i >= 2,
        i * i > n,
        forall|d: int| 1 < d < i ==> !#[trigger] divides(d, n),
    ensures
        prime(n),
{
    assert forall|d: int| 1 < d < n implies !#[trigger] divides(d, n) by {
        if d >= i && divides(d, n) {
            let q = n / d;
            lemma_fundamental_div_mod(n, d);
            assert(n == d * q);
            assert(q > 1) by (nonlinear_arith)
                requires
                    n == d * q,
                    1 < d < n,
            ;
            assert(q < i) by (nonlinear_arith)
                requires
                    n == d * q,
                    d >= i,
                    i >= 2,
                    i * i > n,
            ;
            lemma_mod_multiples_basic(d, q);
            assert(d * q == q * d) by (nonlinear_arith);
            assert(divides(q, n));
        }
    }
}

/// `n` lies between `i` times the quotient and the next multiple of `i`.
proof fn lemma_quotient_bounds(n: int, i: int)
    requires
        n >= 0,
        i >= 2,
    ensures
        i * (n / i) <= n < i * (n / i) + i,
        0 <= n / i <= n,
{
    lemma_fundamental_div_mod(n, i);
    assert(0 <= n / i <= n) by (nonlinear_arith)
        requires
            n >= 0,
            i >= 2,
            n == i * (n / i) + n % i,
            0 <= n % i < i,
    ;
}

/// The parser's message for `err`.
///
/// This is `serde_json::Error`'s `Display`.  Nothing is claimed of the
/// text: what is made of it holds of any.
#[verifier::external_body]
fn error_text(err: &serde_json::Error) -> String {
    err.to_string()
}

impl RequestError {
    /// Sorts a parser's message: one that speaks of a floating point number
    /// where an integer was due is `FloatingPoint`, any other is kept as
    /// `InvalidJSON`.
    pub fn from_text(text: String) -> (e: RequestError)
        ensures
            match e {
                RequestError::FloatingPoint => occurs_in(text@, float_marker()),
                RequestError::InvalidJSON(kept) => !occurs_in(text@, float_marker()) && kept@ == text@,
            },
    {
        if contains_text(text.as_str(), "invalid type: floating point ") {
            RequestError::FloatingPoint
        } else {
            RequestError::InvalidJSON(text)
        }
    }

    /// Sorts a parser's error by its message, as `from_text` does.
    pub fn from_json(err: serde_json::Error) -> (e: RequestError)
        ensures
            e matches RequestError::InvalidJSON(kept) ==> !occurs_in(kept@, float_marker()),
    {
        RequestError::from_text(error_text(&err))
    }
}

impl<'a> Response<'a> {
    /// The answer to a request that was understood.
    pub fn ok(prime: bool) -> (r: Self)
        ensures
            r@ == ("isPrime"@, prime),
            !r.spec_is_malformed(),
    {
        proof {
            reveal_strlit("isPrime");
            reveal_strlit("malformed");
            assert("isPrime"@.len() != "malformed"@.len());
        }
        Self { method: "isPrime", prime }
    }

    /// The answer to a request that was not.
    pub fn malformed() -> (r: Self)
        ensures
            r@ == ("malformed"@, false),
            r.spec_is_malformed(),
    {
        Self { method: "malformed", prime: false }
    }

    /// Whether this is the answer to a malformed request.
    pub open spec fn spec_is_malformed(&self) -> bool {
        self.method@ == "malformed"@
    }

    /// Whether this is the answer to a malformed request, after which the
    /// conversation ends.
    #[verifier::when_used_as_spec(spec_is_malformed)]
    pub fn is_malformed(&self) -> (r: bool)
        ensures
            r == self.spec_is_malformed(),
    {
        same_text(self.method, "malformed")
    }
}

impl Session {
    /// The conversation with a client that has just connected.
    pub fn new() -> Self {
        Self {  }
    }

    /// Answers a request, or the failure to read one.
    pub fn handle_request(&self, request: Result<Request, RequestError>) -> (r: Response<'static>)
        ensures
            r@ == answer(request),
            r.is_malformed() <==> !(request matches Ok(q) && q.method@ == "isPrime"@)
                && !(request matches Err(RequestError::FloatingPoint)),
    {
        match request {
            Ok(Request { method, number }) => {
                if same_text(method, "isPrime") {
                    Response::ok(self.is_prime(number))
                } else {
                    Response::malformed()
                }
            },
            Err(RequestError::FloatingPoint) => Response::ok(false),
            Err(RequestError::InvalidJSON(_)) => Response::malformed(),
        }
    }

    /// Whether `number` is prime.
    pub fn is_prime(&self, number: isize) -> (r: bool)
        ensures
            r == prime(number as int),
    {
        if number <= 1 {
            return false;
        }
        let mut i: isize = 2;
        proof {
            lemma_quotient_bounds(number as int, i as int);
        }
        while i <= number / i
            invariant
                2 <= i <= number,
                i * (number / i) <= number < i * (number / i) + i,
                forall|d: int| 1 < d < i ==> !#[trigger] divides(d, number as int),
            decreases number - i,
        {
            assert(i < number) by (nonlinear_arith)
                requires
                    2 <= i <= number / i,
                    i * (number / i) <= number,
            ;
            if number % i == 0 {
                assert(divides(i as int, number as int));
                return false;
            }
            i = i + 1;
            proof {
                lemma_quotient_bounds(number as int, i as int);
            }
        }
        proof {
            assert(i * i > number) by (nonlinear_arith)
                requires
                    i > number / i,
                    i >= 2,
                    number < i * (number / i) + i,
            ;
            lemma_prime_by_small_divisors(number as int, i as int);
        }
        true
    }
}

impl Server {
    /// A server that has not begun to listen.
    pub fn new() -> Self {
        Self {  }
    }
}

} // verus!
