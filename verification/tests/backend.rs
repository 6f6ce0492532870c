use rusty_llama::backend::Backend;

#[test]
fn first_acquire_initialises_last_release_frees() {
    let mut handles: usize = 0;
    let (a, init_a) = Backend::acquire(&mut handles);
    assert!(init_a);
    assert_eq!(handles, 1);
    let (b, init_b) = Backend::acquire(&mut handles);
    assert!(!init_b);
    assert_eq!(handles, 2);
    assert!(!a.release(&mut handles));
    assert_eq!(handles, 1);
    assert!(b.release(&mut handles));
    assert_eq!(handles, 0);
    let (c, init_c) = Backend::acquire(&mut handles);
    assert!(init_c);
    assert!(c.release(&mut handles));
}
