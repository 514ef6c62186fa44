use subsys::counter::Counter;
use subsys::substringer::Substringer;

#[test]
fn substringer_append_and_read() {
    let mut s = Substringer::new(String::from("abc"));
    assert_eq!(s.append_get("xyz"), "abcxyz");
    assert_eq!(s.size(), 6);
    assert_eq!(s.substr(2, 5), "cxy");
    assert_eq!(s.substr(0, 6), "abcxyz");
}

#[test]
fn substringer_out_of_range_spans_are_empty() {
    let s = Substringer::new(String::from("abcd"));
    assert_eq!(s.substr(2, 9), "");
    assert_eq!(s.substr(3, 1), "");
    assert_eq!(s.substr(9, 12), "");
    assert_eq!(s.substr(0, 0), "");
    assert_eq!(s.substr(4, 4), "");
}

#[test]
fn substringer_starting_empty() {
    let mut s = Substringer::new(String::new());
    assert_eq!(s.size(), 0);
    assert_eq!(s.substr(0, 0), "");
    assert_eq!(s.append_get("a"), "a");
    assert_eq!(s.size(), 1);
}

#[test]
fn counter_starts_at_13_and_adds() {
    let mut c = Counter::new();
    assert_eq!(c.get(), 13);
    assert_eq!(c.add_and_get(3), 16);
    assert_eq!(c.get(), 16);
    assert_eq!(c.add_and_get(0), 16);
}
