use interprocess::cmsg_mut::{reserve_unsupported, CmsgBuf, CmsgMut, ReserveError};

#[test]
fn new_buffer_is_zeroed_and_empty() {
    let b = CmsgBuf::new(8, 0u32);
    assert_eq!(b.as_bytes(), &[0u8; 8][..]);
    assert_eq!(b.valid_len(), 0);
    assert_eq!(*b.context(), 0);
}

#[test]
fn valid_len_keeps_the_last_set_len() {
    let mut b = CmsgBuf::new(16, 0u32);
    for n in [3usize, 16, 0, 7] {
        b.set_len(n);
        assert_eq!(b.valid_len(), n);
        assert_eq!(b.valid_len(), n);
        b.as_bytes_mut()[0] = 1;
        *b.context_mut() += 1;
        let _ = b.as_bytes();
        let _ = b.reserve(4);
        let _ = b.reserve_exact(4);
        assert_eq!(b.valid_len(), n);
    }
}

#[test]
fn both_views_show_the_same_bytes() {
    let mut b = CmsgBuf::new(6, ());
    let len_mut = {
        let m = b.as_bytes_mut();
        m[2] = 42;
        m.len()
    };
    assert_eq!(b.as_bytes().len(), len_mut);
    assert_eq!(b.as_bytes(), &[0, 0, 42, 0, 0, 0][..]);
}

#[test]
fn fixed_buffer_does_not_grow() {
    let mut b = CmsgBuf::new(4, 5u8);
    b.as_bytes_mut()[1] = 9;
    b.set_len(2);
    assert_eq!(b.reserve(10), Err(ReserveError::Unsupported));
    assert_eq!(b.reserve_exact(10), Err(ReserveError::Unsupported));
    assert_eq!(b.as_bytes(), &[0, 9, 0, 0][..]);
    assert_eq!(b.valid_len(), 2);
    assert_eq!(*b.context(), 5);
}

#[test]
fn reserve_unsupported_says_unsupported() {
    assert_eq!(reserve_unsupported(0), Err(ReserveError::Unsupported));
    assert_eq!(reserve_unsupported(usize::MAX), Err(ReserveError::Unsupported));
}

#[test]
fn bytes_and_context_are_apart() {
    let mut b = CmsgBuf::new(4, [7u8; 4]);
    for x in b.as_bytes_mut().iter_mut() {
        *x = 0xff;
    }
    assert_eq!(*b.context(), [7u8; 4]);
    *b.context_mut() = [1, 2, 3, 4];
    assert_eq!(b.as_bytes(), &[0xff; 4][..]);
}
