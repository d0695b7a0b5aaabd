use mdo::option::{bind, mzero, ret};

#[test]
fn option_bind() {
    let x = ret(5);
    assert_eq!(x, Some(5));
    let x = bind(ret(5), |x| ret(x + 1));
    assert_eq!(x, Some(6));
    let x = bind(ret(5), |x| bind(ret(x + 5), |x| ret(x * 2)));
    assert_eq!(x, Some(20));
    let x = bind(ret(5i32), |x| bind(if x == 0 { ret(()) } else { mzero() }, |_| ret(x * 2)));
    assert_eq!(x, None);
}

// The do-notation forms of the cases above, written out as the nested
// calls they stand for.
#[test]
fn option_mdo() {
    let x = ret(5);
    assert_eq!(x, Some(5));
    let x = bind(ret(5), move |x| ret(x + 1));
    assert_eq!(x, Some(6));
    let x = bind(ret(5), move |x| bind(ret(x + 5), move |x| ret(x * 2)));
    assert_eq!(x, Some(20));
    let x = bind(
        ret(5i32),
        move |x| bind(if x == 0 { ret(()) } else { mzero() }, move |_| ret(x * 2)),
    );
    assert_eq!(x, None);
}

// A typed let clause desugars to a plain typed local binding.
#[test]
fn let_type() {
    let _: i32 = {
        let i: i32 = 0;
        i
    };
}

// The monad laws on concrete values: left identity, right identity, and
// the zero law.
#[test]
fn option_monad_laws() {
    let f = |x: i32| if x > 0 { Some(x * 2) } else { None };
    assert_eq!(bind(ret(21), f), f(21));
    assert_eq!(bind(Some(7), ret), Some(7));
    assert_eq!(bind(None::<i32>, ret), None);
    assert_eq!(bind(mzero::<i32>(), f), None);
}
