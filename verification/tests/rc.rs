use nested::cell::new_cell;
use nested::handle::Handle;
use nested::rc::downgrade;
use nested::rc::new_alloc;
use nested::rc::upgrade;
use nested::state::Store;
use nested::state::Value;
use nested::NestedRcWeak;
use nested::NestedRefCell;

fn weak_value(w: &Handle) -> Value {
    match w {
        Handle::Weak(a) => Value::Weak(*a),
        _ => unreachable!(),
    }
}

#[test]
fn test_many_rc() {
    let mut st = Store::new();
    let x1 = new_alloc(&mut st, Value::Int(0));
    let y1 = downgrade(&x1);

    let x2 = new_alloc(&mut st, weak_value(&y1));
    let y2 = downgrade(&x2);

    let x3 = new_alloc(&mut st, weak_value(&y2));
    let y3 = downgrade(&x3);

    let z = upgrade(&y3, &mut st)
        .unwrap()
        .nest_upgrade(&mut st)
        .unwrap()
        .nest_upgrade(&mut st)
        .unwrap();
    assert_eq!(Value::Int(0), z.read(&st));
    z.release(&mut st);
}

#[test]
fn test_rc_refcell() {
    let mut st = Store::new();
    let c = new_cell(&mut st, Value::Int(0));
    let x = new_alloc(&mut st, Value::Cell(c));
    let x = downgrade(&x);
    {
        let b = upgrade(&x, &mut st).unwrap().nest_borrow(&mut st);
        assert_eq!(Value::Int(0), b.read(&st));
        b.release(&mut st);
    }
    {
        let z = upgrade(&x, &mut st).unwrap().nest_borrow(&mut st);
        assert_eq!(Value::Int(0), z.read(&st));
        z.release(&mut st);
    }
}

#[test]
fn upgrade_fails_after_release() {
    let mut st = Store::new();
    let x = new_alloc(&mut st, Value::Int(7));
    let w = downgrade(&x);
    let up = upgrade(&w, &mut st);
    assert!(up.is_some());
    up.unwrap().release(&mut st);
    x.release(&mut st);
    assert!(upgrade(&w, &mut st).is_none());
}

#[test]
fn chain_fails_from_released_level_on() {
    let mut st = Store::new();
    let x1 = new_alloc(&mut st, Value::Int(4));
    let y1 = downgrade(&x1);
    let x2 = new_alloc(&mut st, weak_value(&y1));
    let y2 = downgrade(&x2);

    // Root alive: the whole two-level composition succeeds.
    let z = upgrade(&y2, &mut st).unwrap().nest_upgrade(&mut st).unwrap();
    assert_eq!(Value::Int(4), z.read(&st));
    z.release(&mut st);

    // The innermost owner is released: the upgrade at that level fails.
    x1.release(&mut st);
    let top = upgrade(&y2, &mut st).unwrap();
    assert!(top.nest_upgrade(&mut st).is_none());

    // The outer owner too: now even the first level fails.
    x2.release(&mut st);
    assert!(upgrade(&y2, &mut st).is_none());
}
