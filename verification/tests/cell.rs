use nested::cell::new_cell;
use nested::cell::BorrowConflict;
use nested::handle::swap_targets;
use nested::handle::Handle;
use nested::laws::exchange_and_observe;
use nested::laws::update_then_observe;
use nested::state::Store;
use nested::state::Value;
use nested::NestedRefCell;

#[test]
fn test_many_refcell() {
    let mut st = Store::new();
    let inner = new_cell(&mut st, Value::Int(0));
    let middle = new_cell(&mut st, Value::Cell(inner));
    let x = new_cell(&mut st, Value::Cell(middle));
    {
        let z = Handle::Direct(x)
            .nest_borrow(&mut st)
            .nest_borrow(&mut st)
            .nest_borrow(&mut st);
        assert_eq!(Value::Int(0), z.read(&st));
        z.release(&mut st);
    }
    {
        let z = Handle::Direct(x)
            .nest_try_borrow(&mut st)
            .unwrap()
            .nest_try_borrow(&mut st)
            .unwrap()
            .nest_try_borrow(&mut st)
            .unwrap();
        assert_eq!(Value::Int(0), z.read(&st));
        z.release(&mut st);
    }
    {
        let z = Handle::Direct(x)
            .nest_borrow(&mut st)
            .nest_borrow(&mut st)
            .nest_borrow_mut(&mut st);
        z.write(&mut st, Value::Int(1));
        assert_eq!(Value::Int(1), z.read(&st));
        z.release(&mut st);
    }
    {
        {
            let y = Handle::Direct(x).nest_borrow(&mut st).nest_borrow_mut(&mut st);
            let fresh = new_cell(&mut st, Value::Int(2));
            y.write(&mut st, Value::Cell(fresh));
            y.release(&mut st);
        }
        let z = Handle::Direct(x)
            .nest_borrow(&mut st)
            .nest_borrow(&mut st)
            .nest_borrow(&mut st);
        assert_eq!(Value::Int(2), z.read(&st));
        z.release(&mut st);
    }
}

#[test]
fn test_reassign_refcell_stack() {
    let mut st = Store::new();
    let x_inner = new_cell(&mut st, Value::Int(0));
    let x = new_cell(&mut st, Value::Cell(x_inner));
    let mut ys = Vec::new();
    for i in 1..10i64 {
        let y_inner = new_cell(&mut st, Value::Int(i));
        let y = new_cell(&mut st, Value::Cell(y_inner));
        ys.push(y);
    }

    let mut ref1 = Handle::Direct(x).nest_borrow(&mut st).nest_borrow_mut(&mut st);

    for y in ys.iter() {
        let yref = Handle::Direct(*y).nest_borrow(&mut st).nest_borrow_mut(&mut st);
        let h1 = ref1.into_handle();
        let h2 = yref.into_handle();
        swap_targets(&h1, &h2, &mut st);
        h1.release(&mut st);
        ref1 = match h2 {
            Handle::Bundle(b) => *b,
            _ => unreachable!(),
        };
    }
    ref1.release(&mut st);

    // The first exchange left the first stack's inner value behind.
    assert_eq!(Value::Int(1), st.slot_value(x_inner));
}

#[test]
fn three_deep_replace() {
    let mut st = Store::new();
    let inner = new_cell(&mut st, Value::Int(0));
    let middle = new_cell(&mut st, Value::Cell(inner));
    let outer = new_cell(&mut st, Value::Cell(middle));

    let z = Handle::Direct(outer)
        .nest_borrow(&mut st)
        .nest_borrow(&mut st)
        .nest_borrow(&mut st);
    assert_eq!(Value::Int(0), z.read(&st));
    assert_eq!(st.slot_value(inner), z.read(&st));
    z.release(&mut st);

    let y = Handle::Direct(outer).nest_borrow(&mut st).nest_borrow_mut(&mut st);
    let replacement = new_cell(&mut st, Value::Int(2));
    y.write(&mut st, Value::Cell(replacement));
    y.release(&mut st);

    let z = Handle::Direct(outer)
        .nest_borrow(&mut st)
        .nest_borrow(&mut st)
        .nest_borrow(&mut st);
    assert_eq!(Value::Int(2), z.read(&st));
    z.release(&mut st);
}

#[test]
fn borrow_conflict_errors() {
    let mut st = Store::new();
    let c = new_cell(&mut st, Value::Int(3));

    let w = Handle::Direct(c).nest_borrow_mut(&mut st);
    assert!(matches!(Handle::Direct(c).nest_try_borrow(&mut st), Err(BorrowConflict)));
    assert!(matches!(Handle::Direct(c).nest_try_borrow_mut(&mut st), Err(BorrowConflict)));
    w.release(&mut st);

    let r = Handle::Direct(c).nest_borrow(&mut st);
    assert!(Handle::Direct(c).nest_try_borrow(&mut st).is_ok());
    assert!(matches!(Handle::Direct(c).nest_try_borrow_mut(&mut st), Err(BorrowConflict)));
    r.release(&mut st);
}

#[test]
fn write_then_read_visible() {
    let mut st = Store::new();
    let c = new_cell(&mut st, Value::Int(10));

    let w = Handle::Direct(c).nest_borrow_mut(&mut st);
    w.write(&mut st, Value::Int(11));
    w.release(&mut st);
    let r = Handle::Direct(c).nest_borrow(&mut st);
    assert_eq!(Value::Int(11), r.read(&st));
    r.release(&mut st);

    assert_eq!(Value::Int(12), update_then_observe(c, Value::Int(12), &mut st));
    assert_eq!(Value::Int(12), st.slot_value(c));
}

#[test]
fn swap_exchanges_targets() {
    let mut st = Store::new();
    let c1 = new_cell(&mut st, Value::Int(5));
    let c2 = new_cell(&mut st, Value::Int(6));

    let (r1, r2) = exchange_and_observe(c1, c2, &mut st);
    assert_eq!(Value::Int(6), r1);
    assert_eq!(Value::Int(5), r2);
    assert_eq!(Value::Int(6), st.slot_value(c1));
    assert_eq!(Value::Int(5), st.slot_value(c2));
}
