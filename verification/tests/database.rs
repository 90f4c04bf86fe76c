use protohackers::database::{Request, Store, PACKET_LEN};

#[test]
fn test() {
    assert_eq!(Request::from_buf(&[b'=', 0x41, 0x42]), Request::Insert(None, "AB"));
    assert_eq!(Request::from_buf(&[0x43, b'=', 0x41, 0x42]), Request::Insert(Some("C"), "AB"));
    assert_eq!(Request::from_buf(&[0x43, b'=', b'=', 0x41, 0x42]), Request::Insert(Some("C"), "=AB"));
    assert_eq!(Request::from_buf(&[0x43, b'=']), Request::Insert(Some("C"), ""));
    assert_eq!(Request::from_buf(&[0x43, 0x41, 0x42]), Request::Get("CAB"));
}

#[test]
fn datagrams_at_the_edges() {
    assert_eq!(PACKET_LEN, 1000);
    assert_eq!(Request::from_buf(b""), Request::Get(""));
    assert_eq!(Request::from_buf(b"="), Request::Insert(None, ""));
    assert_eq!(Request::from_buf(b"=="), Request::Insert(None, "="));
    assert_eq!(Request::from_buf(b"a=b=c"), Request::Insert(Some("a"), "b=c"));
    assert_eq!(
        Request::from_buf("schlüssel=wört 日本".as_bytes()),
        Request::Insert(Some("schlüssel"), "wört 日本")
    );
    assert_eq!(Request::try_from_buf(b"key"), Some(Request::Get("key")));
    assert_eq!(Request::try_from_buf(b"k=v"), Some(Request::Insert(Some("k"), "v")));
}

#[test]
fn datagrams_that_are_no_text() {
    assert_eq!(Request::try_from_buf(&[0xff]), None);
    assert_eq!(Request::try_from_buf(&[b'k', 0xc3]), None);
    assert_eq!(Request::try_from_buf(&[0xff, b'=', b'v']), None);
    assert_eq!(Request::try_from_buf(&[b'k', b'=', 0xc3, 0x28]), None);
    assert_eq!(Request::try_from_buf(&[b'=', 0x80]), None);
    assert_eq!(Request::try_from_buf(&[0xc3, b'=', 0xa9]), None);
}

fn ask(store: &mut Store, datagram: &[u8]) -> Option<String> {
    store.apply(&Request::from_buf(datagram))
}

#[test]
fn store_answers_queries() {
    let mut store = Store::new();
    assert_eq!(ask(&mut store, b"foo"), Some("foo=".to_string()));
    assert_eq!(ask(&mut store, b"foo=bar"), None);
    assert_eq!(ask(&mut store, b"foo"), Some("foo=bar".to_string()));
    assert_eq!(ask(&mut store, b"foo=bar=baz"), None);
    assert_eq!(ask(&mut store, b"foo"), Some("foo=bar=baz".to_string()));
    assert_eq!(ask(&mut store, b"foo="), None);
    assert_eq!(ask(&mut store, b"foo"), Some("foo=".to_string()));
    assert_eq!(ask(&mut store, b"other=1"), None);
    assert_eq!(ask(&mut store, b"other"), Some("other=1".to_string()));
    assert_eq!(ask(&mut store, b"foo"), Some("foo=".to_string()));
    assert_eq!(ask(&mut store, b""), Some("=".to_string()));
    assert_eq!(store.get("other"), Some("1"));
    assert_eq!(store.get("nothing"), None);
}

#[test]
fn a_record_without_a_key_is_dropped() {
    let mut store = Store::default();
    assert_eq!(ask(&mut store, b"=value"), None);
    assert_eq!(ask(&mut store, b""), Some("=".to_string()));
    assert_eq!(store.get(""), None);
}

#[test]
fn the_version_cannot_be_changed() {
    let mut store = Store::new();
    let version = "version=bleh's Key-Value Store 2.0".to_string();
    assert_eq!(ask(&mut store, b"version"), Some(version.clone()));
    assert_eq!(ask(&mut store, b"version=mine"), None);
    assert_eq!(ask(&mut store, b"version"), Some(version));
    assert_eq!(ask(&mut store, b"Version"), Some("Version=".to_string()));
}

#[test]
fn insert_replaces_in_place() {
    let mut store = Store::new();
    for round in 0..3 {
        for key in ["a", "b", "c", "ab", ""] {
            store.insert(key, &format!("{}{}", key, round));
        }
    }
    for key in ["a", "b", "c", "ab", ""] {
        assert_eq!(store.get(key).map(|v| v.to_string()), Some(format!("{}2", key)));
    }
    assert_eq!(store.get("d"), None);
}
