use framesheet::grid::{nearest_square, resolve, Error, GridSpec};

#[test]
fn nearest_square_values() {
    assert_eq!(nearest_square(0), 0);
    assert_eq!(nearest_square(1), 1);
    assert_eq!(nearest_square(2), 2);
    assert_eq!(nearest_square(9), 3);
    assert_eq!(nearest_square(10), 4);
    assert_eq!(nearest_square(16), 4);
    assert_eq!(nearest_square(17), 5);
    assert_eq!(nearest_square(u32::MAX), 65536);
}

#[test]
fn resolve_neither_given_uses_ceiling_square_root() {
    assert_eq!(
        resolve(9, None, None),
        Ok(GridSpec {
            rows: 3,
            columns: 3
        })
    );
    assert_eq!(
        resolve(10, None, None),
        Ok(GridSpec {
            rows: 4,
            columns: 4
        })
    );
    assert_eq!(
        resolve(1, None, None),
        Ok(GridSpec {
            rows: 1,
            columns: 1
        })
    );
}

#[test]
fn resolve_rows_given_divides_for_columns() {
    assert_eq!(
        resolve(10, Some(3), None),
        Ok(GridSpec {
            rows: 3,
            columns: 3
        })
    );
}

#[test]
fn resolve_columns_given_divides_for_rows() {
    assert_eq!(
        resolve(10, None, Some(4)),
        Ok(GridSpec {
            rows: 2,
            columns: 4
        })
    );
}

#[test]
fn resolve_both_given_used_as_is() {
    // No check that rows * columns covers the count.
    assert_eq!(
        resolve(10, Some(3), Some(5)),
        Ok(GridSpec {
            rows: 3,
            columns: 5
        })
    );
    assert_eq!(
        resolve(7, Some(2), Some(2)),
        Ok(GridSpec {
            rows: 2,
            columns: 2
        })
    );
}

#[test]
fn resolve_zero_count_is_invalid() {
    assert_eq!(resolve(0, None, None), Err(Error::InvalidArgument));
    assert_eq!(resolve(0, Some(2), None), Err(Error::InvalidArgument));
    assert_eq!(resolve(0, Some(2), Some(2)), Err(Error::InvalidArgument));
}

#[test]
fn resolve_zero_dimension_is_invalid() {
    assert_eq!(resolve(5, Some(0), None), Err(Error::InvalidArgument));
    assert_eq!(resolve(5, None, Some(0)), Err(Error::InvalidArgument));
    assert_eq!(resolve(5, Some(0), Some(3)), Err(Error::InvalidArgument));
}
