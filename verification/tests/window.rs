use blob::{BlobError, BufferWindow};

#[test]
fn root_window_shows_all_bytes() {
    let window = BufferWindow::new(vec![10, 20, 30, 40]);
    assert_eq!(window.len(), 4);
    assert_eq!(window.as_bytes(), &[10, 20, 30, 40]);

    let empty = BufferWindow::new(Vec::new());
    assert_eq!(empty.len(), 0);
    assert_eq!(empty.as_bytes(), &[] as &[u8]);
}

#[test]
fn window_narrows_to_a_range() {
    let window = BufferWindow::new(vec![10, 20, 30, 40]);
    let inner = window.slice(1, 3).unwrap();
    assert_eq!(inner.len(), 2);
    assert_eq!(inner.as_bytes(), &[20, 30]);
    let whole = window.slice(0, 4).unwrap();
    assert_eq!(whole.as_bytes(), &[10, 20, 30, 40]);
}

#[test]
fn window_offsets_count_from_the_arena() {
    let window = BufferWindow::new(vec![10, 20, 30, 40, 50]);
    let inner = window.slice(1, 4).unwrap();
    assert_eq!(inner.slice(2, 4).unwrap().as_bytes(), &[30, 40]);
    assert_eq!(inner.slice(1, 2).unwrap().as_bytes(), &[20]);
    assert_eq!(inner.slice(0, 2).unwrap_err(), BlobError::OutOfRange);
    assert_eq!(inner.slice(3, 5).unwrap_err(), BlobError::OutOfRange);
}

#[test]
fn window_refuses_empty_and_outside_ranges() {
    let window = BufferWindow::new(vec![10, 20, 30, 40]);
    assert_eq!(window.slice(2, 2).unwrap_err(), BlobError::OutOfRange);
    assert_eq!(window.slice(3, 2).unwrap_err(), BlobError::OutOfRange);
    assert_eq!(window.slice(0, 5).unwrap_err(), BlobError::OutOfRange);
    assert_eq!(window.slice(4, 5).unwrap_err(), BlobError::OutOfRange);
    assert_eq!(BufferWindow::new(Vec::new()).slice(0, 0).unwrap_err(), BlobError::OutOfRange);
}

#[test]
fn window_outlives_the_window_it_was_cut_from() {
    let inner = {
        let window = BufferWindow::new(vec![10, 20, 30, 40]);
        window.slice(2, 4).unwrap()
    };
    assert_eq!(inner.as_bytes(), &[30, 40]);
}
