//! Handle and flag values: the reserved stream identifiers and the
//! option bits.

use neotron_sdk::DirHandle;
use neotron_sdk::Flags;
use neotron_sdk::Handle;
use neotron_sdk::FLAG_CREATE;
use neotron_sdk::FLAG_TRUNCATE;
use neotron_sdk::FLAG_WRITE;

#[test]
fn reserved_stream_values_are_fixed() {
    assert_eq!(Handle::new_stdin().value(), 0);
    assert_eq!(Handle::new_stdout().value(), 1);
    assert_eq!(Handle::new_stderr().value(), 2);
    assert_eq!(neotron_sdk::stdin().handle.value(), 0);
    assert_eq!(neotron_sdk::stdout().handle.value(), 1);
    assert_eq!(neotron_sdk::stderr().handle.value(), 2);
}

#[test]
fn handles_carry_their_value() {
    assert_eq!(Handle::new(42).value(), 42);
    assert_eq!(DirHandle::new(7).value(), 7);
}

#[test]
fn flag_bits_are_independent() {
    assert_eq!(Flags::empty().0, 0);
    assert_eq!(Flags::write().0, FLAG_WRITE);
    assert_eq!(Flags::create().0, FLAG_CREATE);
    assert_eq!(Flags::truncate().0, FLAG_TRUNCATE);
    let all = Flags::write().union(Flags::create()).union(Flags::truncate());
    assert_eq!(all.0, FLAG_WRITE | FLAG_CREATE | FLAG_TRUNCATE);
    assert_eq!(Flags::write().union(Flags::write()).0, FLAG_WRITE);
}
