use mrklt::common::{split_range, split_slice, split_tuple_as_range};

#[test]
fn splitters() {
    let tocheck: &[&[u8]] = &[
        &[0][..],
        &[0, 1][..],
        &[0, 1, 2][..],
        &[0, 1, 2, 3][..],
        &[0, 1, 2, 3, 4][..],
        &[0, 1, 2, 3, 4, 5][..],
    ];
    let expected: &[(&[u8], &[u8])] = &[
        (&[0][..], &[][..]),
        (&[0][..], &[1][..]),
        (&[0, 1][..], &[2][..]),
        (&[0, 1][..], &[2, 3][..]),
        (&[0, 1, 2][..], &[3, 4][..]),
        (&[0, 1, 2][..], &[3, 4, 5][..]),
    ];

    for t in tocheck {
        let (ra, rb) = split_range(0..t.len());
        let sr = (&t[ra], &t[rb]);
        let ss = split_slice(t);
        assert_eq!(sr, ss);
    }

    for t in tocheck {
        let (ra, rb) = split_range(0..t.len());
        let (ta, tb) = split_tuple_as_range(0, t.len());
        assert_eq!((ra, rb), (ta.0..ta.1, tb.0..tb.1));
    }

    assert_eq!(tocheck.len(), expected.len());
    for (t, e) in tocheck.iter().zip(expected) {
        assert_eq!(&split_slice(t), e);
    }
}

#[test]
fn split_gives_adjacent_halves_that_differ_by_at_most_one() {
    for start in [0usize, 1, 7, 1000] {
        for n in 0..=300usize {
            let (left, right) = split_range(start..start + n);
            assert_eq!(left.start, start);
            assert_eq!(left.end, right.start);
            assert_eq!(right.end, start + n);
            assert_eq!(left.len() + right.len(), n);
            assert_eq!(left.len(), (n + 1) / 2);
            assert_eq!(right.len(), n / 2);
            assert!(left.len() == right.len() || left.len() == right.len() + 1);
            assert_eq!(
                split_tuple_as_range(start, start + n),
                ((left.start, left.end), (right.start, right.end))
            );
        }
    }
}

#[test]
fn split_of_the_widest_range_does_not_overflow() {
    let (left, right) = split_range(0..usize::MAX);
    assert_eq!(left, 0..usize::MAX / 2 + 1);
    assert_eq!(right, usize::MAX / 2 + 1..usize::MAX);
    let (left, right) = split_range(usize::MAX - 3..usize::MAX);
    assert_eq!(left, usize::MAX - 3..usize::MAX - 1);
    assert_eq!(right, usize::MAX - 1..usize::MAX);
}

#[test]
fn split_slice_of_nothing_is_two_empty_halves() {
    let none: [u8; 0] = [];
    let (left, right) = split_slice(&none);
    assert!(left.is_empty() && right.is_empty());
}
