use nested::handle::Handle;
use nested::laws::abandon_then_relock;
use nested::state::Store;
use nested::state::Value;
use nested::sync::new_mutex;
use nested::sync::new_rwlock;
use nested::sync::Acquired;
use nested::sync::TryAcquired;
use nested::NestedMutex;
use nested::NestedRwLock;

fn acquired(r: TryAcquired) -> nested::Nested {
    match r {
        TryAcquired::Clean(b) => b,
        _ => unreachable!(),
    }
}

#[test]
fn test_many_rwlock() {
    let mut st = Store::new();
    let inner = new_rwlock(&mut st, Value::Int(0));
    let middle = new_rwlock(&mut st, Value::Rw(inner));
    let x = new_rwlock(&mut st, Value::Rw(middle));
    {
        let z = acquired(Handle::Direct(x).nest_try_read(&mut st));
        let z = acquired(z.nest_try_read(&mut st));
        let z = acquired(z.nest_try_read(&mut st));
        assert_eq!(Value::Int(0), z.read(&st));
        z.release(&mut st);
    }
    {
        let z = acquired(Handle::Direct(x).nest_try_read(&mut st));
        let z = acquired(z.nest_try_read(&mut st));
        let z = acquired(z.nest_try_read(&mut st));
        assert_eq!(Value::Int(0), z.read(&st));
        z.release(&mut st);
    }
    {
        let z = acquired(Handle::Direct(x).nest_try_read(&mut st));
        let z = acquired(z.nest_try_read(&mut st));
        let z = acquired(z.nest_try_write(&mut st));
        z.write(&mut st, Value::Int(1));
        assert_eq!(Value::Int(1), z.read(&st));
        z.release(&mut st);
    }
    {
        {
            let y = acquired(Handle::Direct(x).nest_try_read(&mut st));
            let y = acquired(y.nest_try_write(&mut st));
            let fresh = new_rwlock(&mut st, Value::Int(2));
            y.write(&mut st, Value::Rw(fresh));
            y.release(&mut st);
        }
        let z = acquired(Handle::Direct(x).nest_try_read(&mut st));
        let z = acquired(z.nest_try_read(&mut st));
        let z = acquired(z.nest_try_read(&mut st));
        assert_eq!(Value::Int(2), z.read(&st));
        z.release(&mut st);
    }
}

#[test]
fn test_many_mutex() {
    let mut st = Store::new();
    let inner = new_rwlock(&mut st, Value::Int(0));
    let middle = new_rwlock(&mut st, Value::Rw(inner));
    let x = new_rwlock(&mut st, Value::Rw(middle));
    {
        let z = acquired(Handle::Direct(x).nest_try_read(&mut st));
        let z = acquired(z.nest_try_read(&mut st));
        let z = acquired(z.nest_try_read(&mut st));
        assert_eq!(Value::Int(0), z.read(&st));
        z.release(&mut st);
    }
    {
        let z = acquired(Handle::Direct(x).nest_try_read(&mut st));
        let z = acquired(z.nest_try_read(&mut st));
        let z = acquired(z.nest_try_read(&mut st));
        assert_eq!(Value::Int(0), z.read(&st));
        z.release(&mut st);
    }
    {
        let z = acquired(Handle::Direct(x).nest_try_read(&mut st));
        let z = acquired(z.nest_try_read(&mut st));
        let z = acquired(z.nest_try_write(&mut st));
        z.write(&mut st, Value::Int(1));
        assert_eq!(Value::Int(1), z.read(&st));
        z.release(&mut st);
    }
    {
        {
            let y = acquired(Handle::Direct(x).nest_try_read(&mut st));
            let y = acquired(y.nest_try_write(&mut st));
            let fresh = new_rwlock(&mut st, Value::Int(2));
            y.write(&mut st, Value::Rw(fresh));
            y.release(&mut st);
        }
        let z = acquired(Handle::Direct(x).nest_try_read(&mut st));
        let z = acquired(z.nest_try_read(&mut st));
        let z = acquired(z.nest_try_read(&mut st));
        assert_eq!(Value::Int(2), z.read(&st));
        z.release(&mut st);
    }
}

#[test]
fn try_lock_would_block() {
    let mut st = Store::new();
    let m = new_mutex(&mut st, Value::Int(3));

    let g = match Handle::Direct(m).nest_lock(&mut st) {
        Acquired::Clean(b) => b,
        _ => unreachable!(),
    };
    // A second, non-blocking acquisition returns at once, and the holder's
    // view is untouched.
    assert!(matches!(Handle::Direct(m).nest_try_lock(&mut st), TryAcquired::WouldBlock));
    assert_eq!(Value::Int(3), g.read(&st));
    g.release(&mut st);

    // Once released, the non-blocking acquisition succeeds cleanly.
    let g2 = acquired(Handle::Direct(m).nest_try_lock(&mut st));
    assert_eq!(Value::Int(3), g2.read(&st));
    g2.release(&mut st);
}

#[test]
fn try_rwlock_would_block() {
    let mut st = Store::new();
    let l = new_rwlock(&mut st, Value::Int(4));

    let r1 = acquired(Handle::Direct(l).nest_try_read(&mut st));
    let r2 = acquired(Handle::Direct(l).nest_try_read(&mut st));
    assert!(matches!(Handle::Direct(l).nest_try_write(&mut st), TryAcquired::WouldBlock));
    r1.release(&mut st);
    r2.release(&mut st);

    let w = acquired(Handle::Direct(l).nest_try_write(&mut st));
    assert!(matches!(Handle::Direct(l).nest_try_read(&mut st), TryAcquired::WouldBlock));
    assert!(matches!(Handle::Direct(l).nest_try_write(&mut st), TryAcquired::WouldBlock));
    w.release(&mut st);
}

#[test]
fn poisoned_mutex_payload() {
    let mut st = Store::new();
    let m = new_mutex(&mut st, Value::Int(0));

    let r = abandon_then_relock(m, Value::Int(5), &mut st);
    let b = match r {
        TryAcquired::Poisoned(b) => b,
        _ => unreachable!(),
    };
    assert_eq!(Value::Int(5), b.read(&st));
    b.release(&mut st);

    // The flag persists: a blocking acquisition reports it too, and the
    // payload is still the failed holder's last write.
    let b2 = match Handle::Direct(m).nest_lock(&mut st) {
        Acquired::Poisoned(b2) => b2,
        _ => unreachable!(),
    };
    assert_eq!(Value::Int(5), b2.read(&st));
    b2.release(&mut st);
}

#[test]
fn poisoned_rwlock_payload() {
    let mut st = Store::new();
    let l = new_rwlock(&mut st, Value::Int(0));

    let w = acquired(Handle::Direct(l).nest_try_write(&mut st));
    w.write(&mut st, Value::Int(6));
    w.abandon(&mut st);

    let b = match Handle::Direct(l).nest_try_read(&mut st) {
        TryAcquired::Poisoned(b) => b,
        _ => unreachable!(),
    };
    assert_eq!(Value::Int(6), b.read(&st));
    b.release(&mut st);

    let b = match Handle::Direct(l).nest_try_write(&mut st) {
        TryAcquired::Poisoned(b) => b,
        _ => unreachable!(),
    };
    assert_eq!(Value::Int(6), b.read(&st));
    b.release(&mut st);
}
