use jagged_array::JaggedArray;

#[test]
fn assert_returns_same_elements() {
    let input = vec![vec![1, 2, 3, 4, 5], vec![2, 3, 4], vec![2; 5]];

    let jagged: JaggedArray<_> = JaggedArray::from_rows(&input);

    let mut output: Vec<Vec<_>> = Vec::new();
    let mut it = jagged.iter();
    while let Some(slice) = it.next() {
        output.push(slice.to_vec());
    }

    assert_eq!(input, output);
}

#[test]
fn assert_returns_same_elements_mut() {
    let input = vec![vec![1, 2, 3, 4, 5], vec![2, 3, 4], vec![2; 5]];

    let mut jagged: JaggedArray<_> = JaggedArray::from_rows(&input);

    let mut output: Vec<Vec<_>> = Vec::new();
    let mut it = jagged.iter_mut();
    while let Some(slice) = it.next() {
        output.push(slice.to_vec());
    }

    assert_eq!(input, output);
}

#[test]
fn assert_get_returns_correct_slice() {
    let input = vec![vec![1, 2, 3, 4, 5], vec![2, 3, 4], vec![2; 5]];

    let jagged: JaggedArray<_> = JaggedArray::from_rows(&input);

    let mut output: Vec<Vec<_>> = Default::default();

    for i in 0..jagged.len() {
        output.push(jagged.get(i).unwrap().to_vec());
    }

    assert_eq!(input, output);
}

#[test]
fn assert_get_mut_returns_correct_slice() {
    let input = vec![vec![1, 2, 3, 4, 5], vec![2, 3, 4], vec![2; 5]];

    let mut jagged: JaggedArray<_> = JaggedArray::from_rows(&input);

    let mut output: Vec<Vec<_>> = Default::default();

    for i in 0..jagged.len() {
        output.push(jagged.get_mut(i).unwrap().to_vec());
    }

    assert_eq!(input, output);
}

#[test]
fn empty_container_has_no_rows() {
    let jagged: JaggedArray<u8> = JaggedArray::new();
    assert_eq!(jagged.len(), 0);
    assert!(jagged.get(0).is_none());

    let mut it = jagged.iter();
    assert!(it.next().is_none());
    assert!(it.next().is_none());
}

#[test]
fn zero_length_rows_are_kept() {
    let input: Vec<Vec<i32>> = vec![vec![], vec![1, 2], vec![]];

    let jagged: JaggedArray<_> = JaggedArray::from_rows(&input);

    assert_eq!(jagged.len(), 3);
    assert_eq!(jagged.get(0).unwrap(), &[] as &[i32]);
    assert_eq!(jagged.get(1).unwrap(), &[1, 2]);
    assert_eq!(jagged.get(2).unwrap(), &[] as &[i32]);

    let mut it = jagged.iter();
    assert_eq!(it.next().unwrap(), &[] as &[i32]);
    assert_eq!(it.next().unwrap(), &[1, 2]);
    assert_eq!(it.next().unwrap(), &[] as &[i32]);
    assert!(it.next().is_none());
}

#[test]
fn all_rows_empty() {
    let input: Vec<Vec<i32>> = vec![vec![], vec![], vec![]];

    let jagged: JaggedArray<_> = JaggedArray::from_rows(&input);

    assert_eq!(jagged.len(), 3);
    let mut count = 0;
    let mut it = jagged.iter();
    while let Some(slice) = it.next() {
        assert!(slice.is_empty());
        count += 1;
    }
    assert_eq!(count, 3);
}

#[test]
fn out_of_range_is_absent() {
    let input = vec![vec![1], vec![2, 3]];
    let mut jagged: JaggedArray<_> = JaggedArray::from_rows(&input);

    let n = jagged.len();
    assert!(jagged.get(n).is_none());
    assert!(jagged.get(n + 7).is_none());
    assert!(jagged.get(usize::MAX).is_none());
    assert!(jagged.get_mut(n).is_none());
    assert!(jagged.get_mut(n + 7).is_none());
}

#[test]
fn push_matches_bulk_extend() {
    let rows = vec![vec![9, 8], vec![], vec![7], vec![6, 5, 4]];

    let mut pushed: JaggedArray<i32> = JaggedArray::new();
    for row in &rows {
        pushed.push(row);
    }

    let mut extended: JaggedArray<i32> = JaggedArray::new();
    extended.extend(&rows);

    assert_eq!(pushed.len(), extended.len());
    for i in 0..pushed.len() {
        assert_eq!(pushed.get(i).unwrap(), extended.get(i).unwrap());
    }
}

#[test]
fn extend_appends_after_existing_rows() {
    let mut jagged: JaggedArray<i32> = JaggedArray::new();
    jagged.push(&[1, 2]);
    jagged.extend(&vec![vec![3], vec![], vec![4, 5]]);

    assert_eq!(jagged.len(), 4);
    assert_eq!(jagged.get(0).unwrap(), &[1, 2]);
    assert_eq!(jagged.get(1).unwrap(), &[3]);
    assert_eq!(jagged.get(2).unwrap(), &[] as &[i32]);
    assert_eq!(jagged.get(3).unwrap(), &[4, 5]);
}

#[test]
fn singleton_holds_one_row() {
    let jagged = JaggedArray::singleton(vec![10, 20, 30]);
    assert_eq!(jagged.len(), 1);
    assert_eq!(jagged.get(0).unwrap(), &[10, 20, 30]);
    assert!(jagged.get(1).is_none());
}

#[test]
fn singleton_of_empty_vec() {
    let jagged: JaggedArray<i32> = JaggedArray::singleton(Vec::new());
    assert_eq!(jagged.len(), 1);
    assert_eq!(jagged.get(0).unwrap(), &[] as &[i32]);
}

#[test]
fn default_is_empty() {
    let jagged: JaggedArray<i32> = Default::default();
    assert_eq!(jagged.len(), 0);
    assert!(jagged.get(0).is_none());
}

#[test]
fn get_mut_changes_only_its_row() {
    let input = vec![vec![1, 2], vec![3, 4, 5], vec![6]];
    let mut jagged: JaggedArray<_> = JaggedArray::from_rows(&input);

    {
        let row = jagged.get_mut(1).unwrap();
        row[0] = 30;
        row[2] = 50;
    }

    assert_eq!(jagged.get(0).unwrap(), &[1, 2]);
    assert_eq!(jagged.get(1).unwrap(), &[30, 4, 50]);
    assert_eq!(jagged.get(2).unwrap(), &[6]);
}

#[test]
fn iter_mut_changes_only_the_chosen_row() {
    let input = vec![vec![1, 2], vec![], vec![3, 4, 5]];
    let mut jagged: JaggedArray<_> = JaggedArray::from_rows(&input);

    {
        let mut it = jagged.iter_mut();
        let mut index = 0;
        while let Some(row) = it.next() {
            if index == 2 {
                row[1] = 40;
            }
            index += 1;
        }
        assert_eq!(index, 3);
    }

    assert_eq!(jagged.get(0).unwrap(), &[1, 2]);
    assert_eq!(jagged.get(1).unwrap(), &[] as &[i32]);
    assert_eq!(jagged.get(2).unwrap(), &[3, 40, 5]);
}

#[test]
fn iter_mut_can_rewrite_every_row() {
    let input = vec![vec![1, 2], vec![3], vec![4, 5, 6]];
    let mut jagged: JaggedArray<_> = JaggedArray::from_rows(&input);

    {
        let mut it = jagged.iter_mut();
        while let Some(row) = it.next() {
            for x in row.iter_mut() {
                *x *= 10;
            }
        }
    }

    assert_eq!(jagged.get(0).unwrap(), &[10, 20]);
    assert_eq!(jagged.get(1).unwrap(), &[30]);
    assert_eq!(jagged.get(2).unwrap(), &[40, 50, 60]);
}

#[test]
fn iterators_are_rederivable() {
    let input = vec![vec![1], vec![2, 3]];
    let jagged: JaggedArray<_> = JaggedArray::from_rows(&input);

    let mut first = jagged.iter();
    assert_eq!(first.next().unwrap(), &[1]);

    let mut second = jagged.iter();
    assert_eq!(second.next().unwrap(), &[1]);
    assert_eq!(second.next().unwrap(), &[2, 3]);
    assert!(second.next().is_none());

    assert_eq!(first.next().unwrap(), &[2, 3]);
    assert!(first.next().is_none());
}

#[test]
fn get_agrees_with_iteration_order() {
    let input = vec![vec![5, 5], vec![], vec![9], vec![1, 2, 3]];
    let jagged: JaggedArray<_> = JaggedArray::from_rows(&input);

    let mut it = jagged.iter();
    for i in 0..jagged.len() {
        assert_eq!(jagged.get(i).unwrap(), it.next().unwrap());
    }
    assert!(it.next().is_none());
}

#[test]
fn trailing_empty_row_is_iterated() {
    let mut jagged: JaggedArray<i32> = JaggedArray::new();
    jagged.push(&[1]);
    jagged.push(&[]);

    assert_eq!(jagged.len(), 2);
    assert_eq!(jagged.get(1).unwrap(), &[] as &[i32]);

    let mut it = jagged.iter();
    assert_eq!(it.next().unwrap(), &[1]);
    assert_eq!(it.next().unwrap(), &[] as &[i32]);
    assert!(it.next().is_none());
}
