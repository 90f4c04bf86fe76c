use protohackers::prime_time::{Request, RequestError, Response, Server, Session};

#[test]
fn primes() {
    let expected = [2, 3, 5, 7, 11, 13, 17, 19, 23];
    let mut primes: Vec<isize> = vec![];
    let mut curr = 0;
    while primes.len() != expected.len() {
        if Session::new().is_prime(curr) {
            primes.push(curr)
        }
        curr += 1;
    }
    assert_eq!(primes, expected);
}

#[test]
fn numbers_that_are_not_prime() {
    let session = Session::new();
    for n in [-7, -2, -1, 0, 1, 4, 6, 8, 9, 15, 21, 25, 49, 121, 169, 7917, 1_000_000] {
        assert!(!session.is_prime(n), "{}", n);
    }
    assert!(!session.is_prime(isize::MIN));
    assert!(!session.is_prime(46337 * 46337));
    assert!(!session.is_prime(2_147_483_647 * 2));
}

#[test]
fn large_primes() {
    let session = Session::new();
    for n in [7919, 104_729, 1_000_003, 2_147_483_647] {
        assert!(session.is_prime(n), "{}", n);
    }
}

#[test]
fn is_prime_agrees_with_trial_division() {
    let session = Session::new();
    for n in 0..2000isize {
        let expected = n > 1 && (2..n).all(|d| n % d != 0);
        assert_eq!(session.is_prime(n), expected, "{}", n);
    }
}

#[test]
fn responses() {
    let yes = Response::ok(true);
    assert_eq!((yes.method, yes.prime), ("isPrime", true));
    assert!(!yes.is_malformed());
    let no = Response::ok(false);
    assert_eq!((no.method, no.prime), ("isPrime", false));
    assert!(!no.is_malformed());
    let bad = Response::malformed();
    assert_eq!((bad.method, bad.prime), ("malformed", false));
    assert!(bad.is_malformed());
    assert!(!Response { method: "malformed ", prime: false }.is_malformed());
    assert!(Response { method: "malformed", prime: true }.is_malformed());
}

#[test]
fn handle_request_answers_each_kind() {
    let session = Session::new();
    let _server = Server::new();

    let r = session.handle_request(Ok(Request { method: "isPrime", number: 13 }));
    assert_eq!((r.method, r.prime), ("isPrime", true));
    let r = session.handle_request(Ok(Request { method: "isPrime", number: 12 }));
    assert_eq!((r.method, r.prime), ("isPrime", false));
    let r = session.handle_request(Ok(Request { method: "isPrime", number: -4 }));
    assert_eq!((r.method, r.prime), ("isPrime", false));

    let r = session.handle_request(Ok(Request { method: "isprime", number: 13 }));
    assert!(r.is_malformed());
    assert_eq!((r.method, r.prime), ("malformed", false));
    let r = session.handle_request(Ok(Request { method: "", number: 2 }));
    assert!(r.is_malformed());

    let r = session.handle_request(Err(RequestError::FloatingPoint));
    assert_eq!((r.method, r.prime), ("isPrime", false));
    assert!(!r.is_malformed());
    let r = session.handle_request(Err(RequestError::InvalidJSON("expected value".to_string())));
    assert!(r.is_malformed());
    assert_eq!((r.method, r.prime), ("malformed", false));
}

#[test]
fn messages_are_sorted_by_the_float_marker() {
    assert_eq!(
        RequestError::from_text(
            "invalid type: floating point `123.1`, expected isize at line 1 column 34".to_string()
        ),
        RequestError::FloatingPoint
    );
    assert_eq!(
        RequestError::from_text("xx invalid type: floating point ".to_string()),
        RequestError::FloatingPoint
    );
    for text in [
        "",
        "expected value at line 1 column 11",
        "invalid type: floating point",
        "invalid type: floating  point `1.0`",
        "nvalid type: floating point ",
        "invalid type: string \"1\", expected isize",
    ] {
        assert_eq!(
            RequestError::from_text(text.to_string()),
            RequestError::InvalidJSON(text.to_string())
        );
    }
}

#[test]
fn parser_errors_are_sorted_by_their_message() {
    let float = serde_json::from_str::<isize>("123.1").unwrap_err();
    assert_eq!(RequestError::from_json(float), RequestError::FloatingPoint);

    let broken = serde_json::from_str::<isize>("{\"method\":isPrime\"").unwrap_err();
    let text = broken.to_string();
    assert!(!text.is_empty());
    assert_eq!(RequestError::from_json(broken), RequestError::InvalidJSON(text));

    let wrong = serde_json::from_str::<isize>("\"12\"").unwrap_err();
    assert!(matches!(RequestError::from_json(wrong), RequestError::InvalidJSON(_)));
}
