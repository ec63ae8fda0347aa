use nested::handle::Handle;
use nested::rc::downgrade;
use nested::rc::new_alloc;
use nested::rc::upgrade;
use nested::state::Store;
use nested::state::Value;
use nested::NestedArcWeak;

fn weak_value(w: &Handle) -> Value {
    match w {
        Handle::Weak(a) => Value::Weak(*a),
        _ => unreachable!(),
    }
}

#[test]
fn test_many_arc() {
    let mut st = Store::new();
    let x1 = new_alloc(&mut st, Value::Int(0));
    let y1 = downgrade(&x1);

    let x2 = new_alloc(&mut st, weak_value(&y1));
    let y2 = downgrade(&x2);

    let x3 = new_alloc(&mut st, weak_value(&y2));
    let y3 = downgrade(&x3);

    let z = upgrade(&y3, &mut st)
        .unwrap()
        .nest_upgrade(&mut st)
        .unwrap()
        .nest_upgrade(&mut st)
        .unwrap();
    assert_eq!(Value::Int(0), z.read(&st));
    z.release(&mut st);
}

#[test]
fn arc_upgrade_fails_after_release() {
    let mut st = Store::new();
    let x1 = new_alloc(&mut st, Value::Int(9));
    let y1 = downgrade(&x1);
    let x2 = new_alloc(&mut st, weak_value(&y1));
    let y2 = downgrade(&x2);

    x1.release(&mut st);
    let top = upgrade(&y2, &mut st).unwrap();
    assert!(top.nest_upgrade(&mut st).is_none());
}
