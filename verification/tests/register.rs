use async_state_machine_example::register::ByteRegister;

#[test]
fn a_new_register_holds_zero() {
    let register = ByteRegister::new();
    assert_eq!(register.load(), 0);
}

#[test]
fn a_load_returns_the_last_store() {
    let register = ByteRegister::new();
    register.store(17);
    assert_eq!(register.load(), 17);
    register.store(200);
    register.store(201);
    assert_eq!(register.load(), 201);
}

#[test]
fn a_load_leaves_the_value_in_place() {
    let register = ByteRegister::new();
    register.store(5);
    assert_eq!(register.load(), 5);
    assert_eq!(register.load(), 5);
}

#[test]
fn writer_and_reader_share_the_register() {
    let register = ByteRegister::new();
    let writer = &register;
    let reader = &register;
    writer.store(99);
    assert_eq!(reader.load(), 99);
}
