use hyper_capi::buf::hyper_buf;
use hyper_capi::code::{hyper_code, iter_continues, HYPER_ITER_BREAK, HYPER_ITER_CONTINUE};
use hyper_capi::error::hyper_error;
use hyper_capi::task::hyper_task_return_type;

#[test]
fn error_code_is_the_general_error() {
    let error = hyper_error::new(b"connection closed".to_vec());
    assert_eq!(error.code(), hyper_code::HYPERE_ERROR);
}

#[test]
fn print_to_writes_the_whole_text_where_it_fits() {
    let error = hyper_error::new(b"hello".to_vec());
    let mut dst = [b'.'; 8];
    assert_eq!(error.print_to(&mut dst), 5);
    assert_eq!(&dst, b"hello...");
}

#[test]
fn print_to_fills_a_buffer_of_the_exact_length() {
    let error = hyper_error::new(b"hello".to_vec());
    let mut dst = [0u8; 5];
    assert_eq!(error.print_to(&mut dst), 5);
    assert_eq!(&dst, b"hello");
}

#[test]
fn print_to_cuts_without_notice() {
    let error = hyper_error::new(b"hello".to_vec());
    let mut dst = [b'.'; 3];
    assert_eq!(error.print_to(&mut dst), 3);
    assert_eq!(&dst, b"hel");
}

#[test]
fn print_to_writes_nothing_into_an_empty_buffer() {
    let error = hyper_error::new(b"hello".to_vec());
    let mut dst: [u8; 0] = [];
    assert_eq!(error.print_to(&mut dst), 0);
}

#[test]
fn print_to_of_an_empty_text_leaves_the_buffer() {
    let error = hyper_error::new(Vec::new());
    let mut dst = [b'.'; 2];
    assert_eq!(error.print_to(&mut dst), 0);
    assert_eq!(&dst, b"..");
}

#[test]
fn only_zero_continues() {
    assert_eq!(HYPER_ITER_CONTINUE, 0);
    assert_eq!(HYPER_ITER_BREAK, 1);
    assert!(iter_continues(HYPER_ITER_CONTINUE));
    assert!(!iter_continues(HYPER_ITER_BREAK));
    assert!(!iter_continues(-1));
    assert!(!iter_continues(i32::MAX));
}

#[test]
fn buffer_holds_a_copy_of_its_bytes() {
    let mut source = b"chunk".to_vec();
    let buf = hyper_buf::copy_from_slice(&source);
    source[0] = b'X';
    assert_eq!(buf.bytes(), b"chunk");
    assert_eq!(buf.len(), 5);
    assert_eq!(buf.as_task_type(), hyper_task_return_type::HYPER_TASK_BUF);
}

#[test]
fn empty_buffer_has_length_zero() {
    let buf = hyper_buf::copy_from_slice(b"");
    assert_eq!(buf.len(), 0);
    assert!(buf.bytes().is_empty());
}

#[test]
fn buffer_wraps_shared_bytes() {
    let buf = hyper_buf(bytes::Bytes::from_static(b"abc"));
    assert_eq!(buf.bytes(), b"abc");
    assert_eq!(buf.len(), 3);
}
