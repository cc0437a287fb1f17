use storage::error::Error;
use storage::ring_buffer_sync::RingBufferSync;

#[test]
fn test_buffer_length_changes() {
    let mut ring = RingBufferSync::new(vec![0; 2]);
    assert!(ring.is_empty());
    assert!(!ring.is_full());
    assert_eq!(ring.len(), 0);
    assert_eq!(ring.capacity(), 2);
    assert_eq!(ring.window(), 2);

    ring.enqueue_unallocated(1);
    assert!(!ring.is_empty());
    assert!(!ring.is_full());
    assert_eq!(ring.len(), 1);
    assert_eq!(ring.capacity(), 2);
    assert_eq!(ring.window(), 1);

    ring.enqueue_unallocated(1);
    assert!(!ring.is_empty());
    assert!(ring.is_full());
    assert_eq!(ring.len(), 2);
    assert_eq!(ring.capacity(), 2);
    assert_eq!(ring.window(), 0);
}

#[test]
fn test_buffer_enqueue_dequeue_one_with() {
    let mut ring = RingBufferSync::new(vec![0; 5]);
    assert_eq!(
        ring.dequeue_one_with::<(), _>(|_| unreachable!()),
        Err(Error::Exhausted)
    );

    ring.enqueue_one_with(Ok).unwrap();
    assert!(!ring.is_empty());
    assert!(!ring.is_full());

    for i in 1..5 {
        ring.enqueue_one_with(|e| Ok(*e = i)).unwrap();
        assert!(!ring.is_empty());
    }
    assert!(ring.is_full());
    assert_eq!(
        ring.enqueue_one_with::<(), _>(|_| unreachable!()),
        Err(Error::Exhausted)
    );

    for i in 0..5 {
        assert_eq!(ring.dequeue_one_with(|e| Ok(*e)).unwrap(), i);
        assert!(!ring.is_full());
    }
    assert_eq!(
        ring.dequeue_one_with::<(), _>(|_| unreachable!()),
        Err(Error::Exhausted)
    );
    assert!(ring.is_empty());
}

#[test]
fn test_buffer_enqueue_dequeue_one() {
    let mut ring = RingBufferSync::new(vec![0; 5]);
    assert_eq!(ring.dequeue_one(), Err(Error::Exhausted));

    ring.enqueue_one().unwrap();
    assert!(!ring.is_empty());
    assert!(!ring.is_full());

    for i in 1..5 {
        *ring.enqueue_one().unwrap() = i;
        assert!(!ring.is_empty());
    }
    assert!(ring.is_full());
    assert_eq!(ring.enqueue_one(), Err(Error::Exhausted));

    for i in 0..5 {
        assert_eq!(*ring.dequeue_one().unwrap(), i);
        assert!(!ring.is_full());
    }
    assert_eq!(ring.dequeue_one(), Err(Error::Exhausted));
    assert!(ring.is_empty());
}

#[test]
fn test_buffer_enqueue_many_with() {
    let mut ring = RingBufferSync::new(vec![b'.'; 12]);

    assert_eq!(
        ring.enqueue_many_with(|buf| {
            assert_eq!(buf.len(), 12);
            buf[0..2].copy_from_slice(b"ab");
            (2, true)
        }),
        (2, true)
    );
    assert_eq!(ring.len(), 2);
    assert_eq!(&ring.storage()[..], b"ab..........");

    ring.enqueue_many_with(|buf| {
        assert_eq!(buf.len(), 12 - 2);
        buf[0..4].copy_from_slice(b"cdXX");
        (2, ())
    });
    assert_eq!(ring.len(), 4);
    assert_eq!(&ring.storage()[..], b"abcdXX......");

    ring.enqueue_many_with(|buf| {
        assert_eq!(buf.len(), 12 - 4);
        buf[0..4].copy_from_slice(b"efgh");
        (4, ())
    });
    assert_eq!(ring.len(), 8);
    assert_eq!(&ring.storage()[..], b"abcdefgh....");

    for _ in 0..4 {
        *ring.dequeue_one().unwrap() = b'.';
    }
    assert_eq!(ring.len(), 4);
    assert_eq!(&ring.storage()[..], b"....efgh....");

    ring.enqueue_many_with(|buf| {
        assert_eq!(buf.len(), 12 - 8);
        buf[0..4].copy_from_slice(b"ijkl");
        (4, ())
    });
    assert_eq!(ring.len(), 8);
    assert_eq!(&ring.storage()[..], b"....efghijkl");

    ring.enqueue_many_with(|buf| {
        assert_eq!(buf.len(), 4);
        buf[0..4].copy_from_slice(b"abcd");
        (4, ())
    });
    assert_eq!(ring.len(), 12);
    assert_eq!(&ring.storage()[..], b"abcdefghijkl");

    for _ in 0..4 {
        *ring.dequeue_one().unwrap() = b'.';
    }
    assert_eq!(ring.len(), 8);
    assert_eq!(&ring.storage()[..], b"abcd....ijkl");
}

#[test]
fn test_buffer_enqueue_many() {
    let mut ring = RingBufferSync::new(vec![b'.'; 12]);

    ring.enqueue_many(8).copy_from_slice(b"abcdefgh");
    assert_eq!(ring.len(), 8);
    assert_eq!(&ring.storage()[..], b"abcdefgh....");

    ring.enqueue_many(8).copy_from_slice(b"ijkl");
    assert_eq!(ring.len(), 12);
    assert_eq!(&ring.storage()[..], b"abcdefghijkl");
}

#[test]
fn test_buffer_enqueue_slice() {
    let mut ring = RingBufferSync::new(vec![b'.'; 12]);

    assert_eq!(ring.enqueue_slice(b"abcdefgh"), 8);
    assert_eq!(ring.len(), 8);
    assert_eq!(&ring.storage()[..], b"abcdefgh....");

    for _ in 0..4 {
        *ring.dequeue_one().unwrap() = b'.';
    }
    assert_eq!(ring.len(), 4);
    assert_eq!(&ring.storage()[..], b"....efgh....");

    assert_eq!(ring.enqueue_slice(b"ijklabcd"), 8);
    assert_eq!(ring.len(), 12);
    assert_eq!(&ring.storage()[..], b"abcdefghijkl");
}

#[test]
fn test_buffer_dequeue_many_with() {
    let mut ring = RingBufferSync::new(vec![b'.'; 12]);

    assert_eq!(ring.enqueue_slice(b"abcdefghijkl"), 12);

    assert_eq!(
        ring.dequeue_many_with(|buf| {
            assert_eq!(buf.len(), 12);
            assert_eq!(buf, b"abcdefghijkl");
            buf[..4].copy_from_slice(b"....");
            (4, true)
        }),
        (4, true)
    );
    assert_eq!(ring.len(), 8);
    assert_eq!(&ring.storage()[..], b"....efghijkl");

    ring.dequeue_many_with(|buf| {
        assert_eq!(buf, b"efghijkl");
        buf[..4].copy_from_slice(b"....");
        (4, ())
    });
    assert_eq!(ring.len(), 4);
    assert_eq!(&ring.storage()[..], b"........ijkl");

    assert_eq!(ring.enqueue_slice(b"abcd"), 4);
    assert_eq!(ring.len(), 8);

    ring.dequeue_many_with(|buf| {
        assert_eq!(buf, b"ijkl");
        buf[..4].copy_from_slice(b"....");
        (4, ())
    });
    ring.dequeue_many_with(|buf| {
        assert_eq!(buf, b"abcd");
        buf[..4].copy_from_slice(b"....");
        (4, ())
    });
    assert_eq!(ring.len(), 0);
    assert_eq!(&ring.storage()[..], b"............");
}

#[test]
fn test_buffer_dequeue_many() {
    let mut ring = RingBufferSync::new(vec![b'.'; 12]);

    assert_eq!(ring.enqueue_slice(b"abcdefghijkl"), 12);

    {
        let buf = ring.dequeue_many(8);
        assert_eq!(buf, b"abcdefgh");
        buf.copy_from_slice(b"........");
    }
    assert_eq!(ring.len(), 4);
    assert_eq!(&ring.storage()[..], b"........ijkl");

    {
        let buf = ring.dequeue_many(8);
        assert_eq!(buf, b"ijkl");
        buf.copy_from_slice(b"....");
    }
    assert_eq!(ring.len(), 0);
    assert_eq!(&ring.storage()[..], b"............");
}

#[test]
fn test_buffer_dequeue_slice() {
    let mut ring = RingBufferSync::new(vec![b'.'; 12]);

    assert_eq!(ring.enqueue_slice(b"abcdefghijkl"), 12);

    {
        let mut buf = [0; 8];
        assert_eq!(ring.dequeue_slice(&mut buf[..]), 8);
        assert_eq!(&buf[..], b"abcdefgh");
        assert_eq!(ring.len(), 4);
    }

    assert_eq!(ring.enqueue_slice(b"abcd"), 4);

    {
        let mut buf = [0; 8];
        assert_eq!(ring.dequeue_slice(&mut buf[..]), 8);
        assert_eq!(&buf[..], b"ijklabcd");
        assert_eq!(ring.len(), 0);
    }
}

#[test]
fn test_buffer_get_unallocated() {
    let mut ring = RingBufferSync::new(vec![b'.'; 12]);

    assert_eq!(ring.get_unallocated(16, 4), b"");

    {
        let buf = ring.get_unallocated(0, 4);
        buf.copy_from_slice(b"abcd");
    }
    assert_eq!(&ring.storage()[..], b"abcd........");

    ring.enqueue_many(4);
    assert_eq!(ring.len(), 4);

    {
        let buf = ring.get_unallocated(4, 8);
        buf.copy_from_slice(b"ijkl");
    }
    assert_eq!(&ring.storage()[..], b"abcd....ijkl");

    ring.enqueue_many(8).copy_from_slice(b"EFGHIJKL");
    ring.dequeue_many(4).copy_from_slice(b"abcd");
    assert_eq!(ring.len(), 8);
    assert_eq!(&ring.storage()[..], b"abcdEFGHIJKL");

    {
        let buf = ring.get_unallocated(0, 8);
        buf.copy_from_slice(b"ABCD");
    }
    assert_eq!(&ring.storage()[..], b"ABCDEFGHIJKL");
}

#[test]
fn test_buffer_write_unallocated() {
    let mut ring = RingBufferSync::new(vec![b'.'; 12]);
    ring.enqueue_many(6).copy_from_slice(b"abcdef");
    ring.dequeue_many(6).copy_from_slice(b"ABCDEF");

    assert_eq!(ring.write_unallocated(0, b"ghi"), 3);
    assert_eq!(ring.get_unallocated(0, 3), b"ghi");

    assert_eq!(ring.write_unallocated(3, b"jklmno"), 6);
    assert_eq!(ring.get_unallocated(3, 3), b"jkl");

    assert_eq!(ring.write_unallocated(9, b"pqrstu"), 3);
    assert_eq!(ring.get_unallocated(9, 3), b"pqr");
}

#[test]
fn test_buffer_get_allocated() {
    let mut ring = RingBufferSync::new(vec![b'.'; 12]);

    assert_eq!(ring.get_allocated(16, 4), b"");
    assert_eq!(ring.get_allocated(0, 4), b"");

    ring.enqueue_slice(b"abcd");
    assert_eq!(ring.get_allocated(0, 8), b"abcd");

    ring.enqueue_slice(b"efghijkl");
    ring.dequeue_many(4).copy_from_slice(b"....");
    assert_eq!(ring.get_allocated(4, 8), b"ijkl");

    ring.enqueue_slice(b"abcd");
    assert_eq!(ring.get_allocated(4, 8), b"ijkl");
}

#[test]
fn test_buffer_read_allocated() {
    let mut ring = RingBufferSync::new(vec![b'.'; 12]);
    ring.enqueue_many(12).copy_from_slice(b"abcdefghijkl");

    let mut data = [0; 6];
    assert_eq!(ring.read_allocated(0, &mut data[..]), 6);
    assert_eq!(&data[..], b"abcdef");

    ring.dequeue_many(6).copy_from_slice(b"ABCDEF");
    ring.enqueue_many(3).copy_from_slice(b"mno");

    let mut data = [0; 6];
    assert_eq!(ring.read_allocated(3, &mut data[..]), 6);
    assert_eq!(&data[..], b"jklmno");

    let mut data = [0; 6];
    assert_eq!(ring.read_allocated(6, &mut data[..]), 3);
    assert_eq!(&data[..], b"mno\x00\x00\x00");
}

/// Use the buffer a bit. Then empty it and put in an item of
/// maximum size.
#[test]
fn test_buffer_write_wholly() {
    let mut ring = RingBufferSync::new(vec![b'.'; 8]);
    ring.enqueue_many(2).copy_from_slice(b"xx");
    ring.enqueue_many(2).copy_from_slice(b"xx");
    assert_eq!(ring.len(), 4);
    ring.dequeue_many(4);
    assert_eq!(ring.len(), 0);

    let large = ring.enqueue_many(8);
    assert_eq!(large.len(), 4);
}

/// A writer puts in segments and a reader takes them out, one step of each at a time.
#[test]
fn read_write_in_turns() {
    let segment = b"abcdef";
    let count = 200;
    let mut ring = RingBufferSync::new(vec![0u8; 10 * segment.len()]);
    let mut read = 0;
    for _ in 0..count {
        assert_eq!(ring.enqueue_slice(segment), segment.len());
        ring.dequeue_many_with(|x| {
            assert!(x.len() >= segment.len());
            assert_eq!(&x[..segment.len()], segment);
            read += 1;
            (segment.len(), ())
        });
    }
    assert_eq!(read, count);
    assert!(ring.is_empty());
}

/// Single elements are found in their slots after many rounds, too.
#[test]
fn one_by_one_over_many_rounds() {
    let mut ring = RingBufferSync::new(vec![0u32; 3]);
    for i in 0..100 {
        *ring.enqueue_one().unwrap() = i;
        *ring.enqueue_one().unwrap() = i + 1000;
        assert_eq!(*ring.dequeue_one().unwrap(), i);
        assert_eq!(ring.dequeue_one_with(|e| Ok(*e)), Ok(i + 1000));
        assert_eq!(ring.dequeue_one(), Err(Error::Exhausted));
    }
}

#[test]
fn a_refused_element_stays_where_it_is() {
    let mut ring = RingBufferSync::new(vec![b'.'; 4]);
    assert_eq!(
        ring.enqueue_one_with::<(), _>(|e| {
            *e = b'x';
            Err(Error::Illegal)
        }),
        Err(Error::Illegal)
    );
    assert!(ring.is_empty());
    assert_eq!(ring.storage(), b"x...");

    ring.enqueue_slice(b"ab");
    assert_eq!(
        ring.dequeue_one_with::<(), _>(|e| {
            *e = b'A';
            Err(Error::Finished)
        }),
        Err(Error::Finished)
    );
    assert_eq!(ring.len(), 2);
    assert_eq!(ring.get_allocated(0, 2), b"Ab");
}

#[test]
fn contiguous_window_ends_with_the_storage() {
    let mut ring = RingBufferSync::new(vec![b'.'; 8]);
    assert_eq!(ring.contiguous_window(), 8);
    ring.enqueue_slice(b"abcdef");
    assert_eq!(ring.contiguous_window(), 2);
    ring.dequeue_allocated(4);
    assert_eq!(ring.window(), 6);
    assert_eq!(ring.contiguous_window(), 2);
    assert_eq!(ring.enqueue_many(8).len(), 2);
    assert_eq!(ring.contiguous_window(), 4);
    assert_eq!(ring.enqueue_many(8).len(), 4);
    assert_eq!(ring.contiguous_window(), 0);
    assert!(ring.is_full());
}

#[test]
fn offsets_past_the_end_are_empty() {
    let mut ring = RingBufferSync::new(vec![b'.'; 4]);
    ring.enqueue_slice(b"ab");
    assert_eq!(ring.get_unallocated(2, 4), b"");
    assert_eq!(ring.get_unallocated(usize::MAX, 4), b"");
    assert_eq!(ring.write_unallocated(usize::MAX, b"xy"), 0);
    assert_eq!(ring.get_allocated(2, 4), b"");
    assert_eq!(ring.get_allocated(usize::MAX, 4), b"");
    let mut data = *b"zz";
    assert_eq!(ring.read_allocated(usize::MAX, &mut data), 0);
    assert_eq!(&data, b"zz");
    assert_eq!(ring.storage(), b"ab..");
}

#[test]
fn clear_keeps_the_slots() {
    let mut ring = RingBufferSync::new(vec![b'.'; 4]);
    ring.enqueue_slice(b"abcd");
    ring.dequeue_allocated(1);
    ring.clear();
    assert!(ring.is_empty());
    assert_eq!(ring.window(), 4);
    assert_eq!(ring.storage(), b"abcd");
    assert_eq!(ring.enqueue_many(1), b"a");
}

#[test]
fn borrowed_storage() {
    let mut slots = *b"....";
    {
        let mut ring = RingBufferSync::new(&mut slots[..]);
        assert_eq!(ring.enqueue_slice(b"abcdef"), 4);
        let mut data = [0; 2];
        assert_eq!(ring.dequeue_slice(&mut data), 2);
        assert_eq!(&data, b"ab");
        assert_eq!(ring.enqueue_slice(b"ef"), 2);
    }
    assert_eq!(&slots, b"efcd");
}

#[test]
fn from_a_managed_slice() {
    let ring = RingBufferSync::from(managed::ManagedSlice::Owned(vec![1, 2, 3]));
    assert_eq!(ring.capacity(), 3);
    assert_eq!(ring.storage(), &[1, 2, 3]);
    assert!(ring.is_empty());
}

/// What is put in comes out in the same order.
#[test]
fn first_in_first_out() {
    let mut ring = RingBufferSync::new(vec![0u8; 5]);
    ring.enqueue_slice(b"xyz");
    ring.dequeue_allocated(2);
    assert_eq!(ring.enqueue_slice(b"ab"), 2);
    assert_eq!(ring.enqueue_slice(b"cde"), 2);
    let mut data = [0; 6];
    assert_eq!(ring.dequeue_slice(&mut data), 5);
    assert_eq!(&data, b"zabcd\0");
}

/// Writing and then enqueueing is enqueueing; reading and then dequeueing is dequeueing.
#[test]
fn in_two_steps() {
    let mut one = RingBufferSync::new(vec![b'.'; 5]);
    let mut two = RingBufferSync::new(vec![b'.'; 5]);
    for round in 0..10u8 {
        let data = [round, round + 100, round + 200];
        let n = one.enqueue_slice(&data);
        let m = two.write_unallocated(0, &data);
        two.enqueue_unallocated(m);
        assert_eq!(n, m);
        assert_eq!(one.storage(), two.storage());

        let mut a = [0; 2];
        let mut b = [0; 2];
        let n = one.dequeue_slice(&mut a);
        let m = two.read_allocated(0, &mut b);
        two.dequeue_allocated(m);
        assert_eq!(n, m);
        assert_eq!(a, b);
        assert_eq!(one.len(), two.len());
        assert_eq!(one.len() + one.window(), one.capacity());
    }
}

#[test]
fn debug_output_shows_no_slots() {
    struct Opaque;
    let ring = RingBufferSync::new(vec![Opaque]);
    assert_eq!(format!("{:?}", ring), "BufferSync { .. }");
}
