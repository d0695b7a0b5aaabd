use mdo::result::{bind, ret};

// An error is returned unchanged, for arbitrary error payloads, and the
// continuation is never consulted.
#[test]
fn result_err_propagation() {
    let e: Result<i32, String> = Err(String::from("boom"));
    let x = bind(e, |v| Ok(v + 1));
    assert_eq!(x, Err(String::from("boom")));
    let e: Result<i32, u64> = Err(17);
    let x = bind(e, |v| Ok(v * 2));
    assert_eq!(x, Err(17));
    let e: Result<i32, (bool, i32)> = Err((true, -4));
    let x = bind(e, |_| -> Result<i32, (bool, i32)> { panic!("continuation must not run") });
    assert_eq!(x, Err((true, -4)));
}

#[test]
fn result_bind_ok() {
    let x: Result<i32, String> = bind(ret(5), |x| ret(x + 1));
    assert_eq!(x, Ok(6));
    let x: Result<i32, String> = bind(ret(5), |x| bind(ret(x + 5), |x| ret(x * 2)));
    assert_eq!(x, Ok(20));
}
