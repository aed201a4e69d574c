use sauron_vdom::text::str_eq;
use sauron_vdom::Callback;

#[test]
fn a_callback_turns_an_event_into_a_message() {
    let cb: Callback<u32, u32> = Callback::new(1, |e: u32| e + 1);
    assert_eq!(cb.emit(41), 42);
    assert_eq!(cb.key(), 1);
}

#[test]
fn a_remapped_callback_passes_its_message_on() {
    let cb: Callback<u32, u32> = Callback::new(7, |e: u32| e * 2);
    let mapped: Callback<u32, String> = cb.map(|m: u32| format!("msg {}", m));
    assert_eq!(mapped.emit(4), "msg 8");
}

#[test]
fn remapping_keeps_the_key() {
    let cb: Callback<u32, u32> = Callback::new(7, |e: u32| e);
    let mapped: Callback<u32, i64> = cb.map(|m: u32| -(m as i64));
    assert_eq!(mapped.key(), 7);
    assert_eq!(mapped.emit(5), -5);
}

#[test]
fn remapping_twice_composes() {
    let cb: Callback<u32, u32> = Callback::new(3, |e: u32| e + 1);
    let twice: Callback<u32, u32> = cb.clone().map(|m: u32| m * 10).map(|m: u32| m + 3);
    let once: Callback<u32, u32> = cb.map(|m: u32| m * 10 + 3);
    for e in 0..20u32 {
        assert_eq!(twice.emit(e), once.emit(e));
    }
}

#[test]
fn callbacks_are_the_same_by_key() {
    let a: Callback<u32, u32> = Callback::new(1, |e: u32| e);
    let b: Callback<u32, u32> = Callback::new(1, |e: u32| e + 100);
    let c: Callback<u32, u32> = Callback::new(2, |e: u32| e);
    assert!(a == b);
    assert!(a != c);
}

#[test]
fn a_cloned_callback_behaves_alike() {
    let a: Callback<u32, u32> = Callback::new(9, |e: u32| e * e);
    let b = a.clone();
    assert!(a == b);
    assert_eq!(b.emit(6), 36);
    assert_eq!(a.emit(6), 36);
}

#[test]
fn strings_are_compared_by_their_characters() {
    assert!(str_eq("", ""));
    assert!(str_eq("class", "class"));
    assert!(!str_eq("class", "clasS"));
    assert!(!str_eq("class", "clas"));
    assert!(!str_eq("clas", "class"));
    assert!(!str_eq("", "a"));
    assert!(str_eq("héllo", "héllo"));
    assert!(!str_eq("héllo", "hello"));
}
