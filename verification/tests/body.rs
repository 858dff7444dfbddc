use hyper::body::HttpBody;
use hyper_capi::body::{
    data_output, foreach_after_read, foreach_after_signal, hyper_body, BodyOutput, DrainStep, ReadEvent,
};
use hyper_capi::buf::hyper_buf;
use hyper_capi::code::{HYPER_ITER_BREAK, HYPER_ITER_CONTINUE};
use hyper_capi::error::hyper_error;
use hyper_capi::http_types::{hyper_request, hyper_response, ResponseStatus};
use hyper_capi::task::{hyper_task_return_type, TaskOutput};

fn chunk(text: &str) -> ReadEvent {
    ReadEvent::Chunk(hyper_buf::copy_from_slice(text.as_bytes()))
}

fn read(stream: &mut Option<hyper::Body>) -> ReadEvent {
    let stream = match stream {
        Some(stream) => stream,
        None => return ReadEvent::End,
    };
    let item = futures_executor::block_on(stream.data());
    ReadEvent::from_item(
        item.map(|read| read.map(hyper_buf).map_err(|error| hyper_error::new(format!("{}", error).into_bytes()))),
    )
}

fn run_drain(reads: Vec<ReadEvent>, signals: &[i32]) -> (Vec<Vec<u8>>, Option<BodyOutput>) {
    let mut delivered = Vec::new();
    let mut answers = signals.iter();
    for event in reads {
        match foreach_after_read(event) {
            DrainStep::Deliver(buf) => {
                delivered.push(buf.bytes().to_vec());
                let signal = match answers.next() {
                    Some(signal) => *signal,
                    None => return (delivered, None),
                };
                match foreach_after_signal(signal) {
                    DrainStep::Finish(output) => return (delivered, Some(output)),
                    DrainStep::Read => {}
                    DrainStep::Deliver(_) => panic!("a signal cannot deliver"),
                }
            }
            DrainStep::Finish(output) => return (delivered, Some(output)),
            DrainStep::Read => panic!("a read cannot ask for a read"),
        }
    }
    (delivered, None)
}

fn drain_stream(body: hyper_body, stop_after: Option<usize>) -> (Vec<Vec<u8>>, BodyOutput) {
    let mut stream = body.into_stream();
    let mut delivered = Vec::new();
    loop {
        match foreach_after_read(read(&mut stream)) {
            DrainStep::Deliver(buf) => {
                delivered.push(buf.bytes().to_vec());
                let signal = if Some(delivered.len()) == stop_after { HYPER_ITER_BREAK } else { HYPER_ITER_CONTINUE };
                if let DrainStep::Finish(output) = foreach_after_signal(signal) {
                    return (delivered, output);
                }
            }
            DrainStep::Finish(output) => return (delivered, output),
            DrainStep::Read => panic!("a read cannot ask for a read"),
        }
    }
}

#[test]
fn pull_gives_the_chunk() {
    match data_output(chunk("abc")) {
        BodyOutput::Buf(buf) => assert_eq!(buf.bytes(), b"abc"),
        _ => panic!("the chunk was lost"),
    }
}

#[test]
fn pull_at_the_end_gives_empty_every_time() {
    for _ in 0..3 {
        assert!(matches!(data_output(ReadEvent::End), BodyOutput::Empty));
    }
}

#[test]
fn pull_gives_the_failure() {
    match data_output(ReadEvent::Failed(hyper_error::new(b"reset".to_vec()))) {
        BodyOutput::Error(error) => {
            let mut dst = [0u8; 5];
            assert_eq!(error.print_to(&mut dst), 5);
            assert_eq!(&dst, b"reset");
        }
        _ => panic!("the failure was lost"),
    }
}

#[test]
fn pull_output_becomes_a_task_output() {
    assert_eq!(TaskOutput::from_body(data_output(chunk("a"))).as_task_type(), hyper_task_return_type::HYPER_TASK_BUF);
    assert_eq!(
        TaskOutput::from_body(data_output(ReadEvent::End)).as_task_type(),
        hyper_task_return_type::HYPER_TASK_EMPTY
    );
    assert_eq!(
        TaskOutput::from_body(data_output(ReadEvent::Failed(hyper_error::new(Vec::new())))).as_task_type(),
        hyper_task_return_type::HYPER_TASK_ERROR
    );
}

#[test]
fn drain_steps_after_a_read() {
    assert!(matches!(foreach_after_read(chunk("a")), DrainStep::Deliver(_)));
    assert!(matches!(foreach_after_read(ReadEvent::End), DrainStep::Finish(BodyOutput::Empty)));
    assert!(matches!(
        foreach_after_read(ReadEvent::Failed(hyper_error::new(Vec::new()))),
        DrainStep::Finish(BodyOutput::Error(_))
    ));
}

#[test]
fn drain_steps_after_a_signal() {
    assert!(matches!(foreach_after_signal(HYPER_ITER_CONTINUE), DrainStep::Read));
    assert!(matches!(foreach_after_signal(HYPER_ITER_BREAK), DrainStep::Finish(BodyOutput::Empty)));
    assert!(matches!(foreach_after_signal(-1), DrainStep::Finish(BodyOutput::Empty)));
    assert!(matches!(foreach_after_signal(2), DrainStep::Finish(BodyOutput::Empty)));
}

#[test]
fn drain_delivers_every_chunk_once_in_order() {
    let reads = vec![chunk("one"), chunk("two"), chunk("three"), ReadEvent::End];
    let (delivered, output) = run_drain(reads, &[0, 0, 0]);
    assert_eq!(delivered, vec![b"one".to_vec(), b"two".to_vec(), b"three".to_vec()]);
    assert!(matches!(output, Some(BodyOutput::Empty)));
}

#[test]
fn drain_stops_after_the_first_chunk_with_empty() {
    let reads = vec![chunk("one"), chunk("two"), ReadEvent::End];
    let (delivered, output) = run_drain(reads, &[HYPER_ITER_BREAK, 0]);
    assert_eq!(delivered, vec![b"one".to_vec()]);
    assert!(matches!(output, Some(BodyOutput::Empty)));
}

#[test]
fn drain_stops_before_a_later_failure_with_empty() {
    let reads = vec![chunk("one"), ReadEvent::Failed(hyper_error::new(b"late".to_vec()))];
    let (delivered, output) = run_drain(reads, &[HYPER_ITER_BREAK]);
    assert_eq!(delivered, vec![b"one".to_vec()]);
    assert!(matches!(output, Some(BodyOutput::Empty)));
}

#[test]
fn drain_ends_with_the_failure_of_a_read() {
    let reads = vec![chunk("one"), ReadEvent::Failed(hyper_error::new(b"reset".to_vec())), chunk("never")];
    let (delivered, output) = run_drain(reads, &[0, 0]);
    assert_eq!(delivered, vec![b"one".to_vec()]);
    assert!(matches!(output, Some(BodyOutput::Error(_))));
}

#[test]
fn drain_of_an_ended_stream_delivers_nothing() {
    let (delivered, output) = run_drain(vec![ReadEvent::End], &[]);
    assert!(delivered.is_empty());
    assert!(matches!(output, Some(BodyOutput::Empty)));
}

#[test]
fn empty_body_has_no_stream() {
    let body = hyper_body::empty();
    assert!(body.is_empty());
    assert!(body.into_stream().is_none());
    let (delivered, output) = drain_stream(hyper_body::empty(), None);
    assert!(delivered.is_empty());
    assert!(matches!(output, BodyOutput::Empty));
}

#[test]
fn drain_of_a_stream_gives_its_content() {
    let (delivered, output) = drain_stream(hyper_body::new(hyper::Body::from("hello world")), None);
    assert_eq!(delivered.concat(), b"hello world".to_vec());
    assert!(matches!(output, BodyOutput::Empty));
}

#[test]
fn pulling_a_stream_past_its_end_stays_empty() {
    let mut stream = hyper_body::new(hyper::Body::from("abc")).into_stream();
    match data_output(read(&mut stream)) {
        BodyOutput::Buf(buf) => assert_eq!(buf.bytes(), b"abc"),
        _ => panic!("the chunk was lost"),
    }
    for _ in 0..3 {
        assert!(matches!(data_output(read(&mut stream)), BodyOutput::Empty));
    }
}

#[test]
fn drain_of_a_channel_gives_the_chunks_in_order() {
    let (mut sender, stream) = hyper::Body::channel();
    let mut stream = Some(stream);
    let mut delivered = Vec::new();
    for text in ["one", "two", "three"] {
        assert!(sender.try_send_data(bytes::Bytes::from(text)).is_ok());
        match foreach_after_read(read(&mut stream)) {
            DrainStep::Deliver(buf) => delivered.push(buf.bytes().to_vec()),
            _ => panic!("a chunk was lost"),
        }
        assert!(matches!(foreach_after_signal(HYPER_ITER_CONTINUE), DrainStep::Read));
    }
    drop(sender);
    assert!(matches!(foreach_after_read(read(&mut stream)), DrainStep::Finish(BodyOutput::Empty)));
    assert_eq!(delivered, vec![b"one".to_vec(), b"two".to_vec(), b"three".to_vec()]);
}

#[test]
fn drain_of_an_aborted_channel_ends_with_an_error() {
    let (sender, stream) = hyper::Body::channel();
    sender.abort();
    let (delivered, output) = drain_stream(hyper_body::new(stream), None);
    assert!(delivered.is_empty());
    match output {
        BodyOutput::Error(error) => {
            let mut dst = [0u8; 256];
            assert!(error.print_to(&mut dst) > 0);
        }
        _ => panic!("the failure was lost"),
    }
}

#[test]
fn taken_body_outlives_its_response() {
    let status = match ResponseStatus::new(200) {
        Some(status) => status,
        None => panic!("status 200 was refused"),
    };
    let mut response =
        hyper_response::wrap(status, http::HeaderMap::new(), None, hyper_body::new(hyper::Body::from("kept")));
    let body = response.take_body();
    drop(response);
    let (delivered, output) = drain_stream(body, None);
    assert_eq!(delivered.concat(), b"kept".to_vec());
    assert!(matches!(output, BodyOutput::Empty));
}

#[test]
fn dropping_the_owner_of_a_body_releases_its_stream() {
    let (mut sender, stream) = hyper::Body::channel();
    let mut request = hyper_request::new();
    request.set_body(hyper_body::new(stream));
    drop(request);
    assert!(sender.try_send_data(bytes::Bytes::from("late")).is_err());
}

#[test]
fn replacing_a_body_releases_the_old_stream() {
    let (mut sender, stream) = hyper::Body::channel();
    let mut request = hyper_request::new();
    request.set_body(hyper_body::new(stream));
    request.set_body(hyper_body::empty());
    assert!(sender.try_send_data(bytes::Bytes::from("late")).is_err());
}

#[test]
fn dropping_a_body_releases_its_stream() {
    let (mut sender, stream) = hyper::Body::channel();
    let body = hyper_body::new(stream);
    drop(body);
    assert!(sender.try_send_data(bytes::Bytes::from("late")).is_err());
}

#[test]
fn stream_mut_lends_the_stream_and_keeps_it() {
    let mut body = hyper_body::new(hyper::Body::from("abc"));
    let first = match body.stream_mut() {
        Some(stream) => futures_executor::block_on(stream.data()),
        None => None,
    };
    match first {
        Some(Ok(bytes)) => assert_eq!(&bytes[..], b"abc"),
        _ => panic!("the chunk was lost"),
    }
    assert!(!body.is_empty());
    let second = match body.stream_mut() {
        Some(stream) => futures_executor::block_on(stream.data()),
        None => panic!("the stream was lost"),
    };
    assert!(second.is_none());
    let mut empty = hyper_body::empty();
    assert!(empty.stream_mut().is_none());
}

#[test]
fn read_event_from_item() {
    assert!(matches!(ReadEvent::from_item(None), ReadEvent::End));
    match ReadEvent::from_item(Some(Ok(hyper_buf::copy_from_slice(b"abc")))) {
        ReadEvent::Chunk(buf) => assert_eq!(buf.bytes(), b"abc"),
        _ => panic!("the chunk was lost"),
    }
    match ReadEvent::from_item(Some(Err(hyper_error::new(b"reset".to_vec())))) {
        ReadEvent::Failed(error) => {
            let mut dst = [0u8; 8];
            assert_eq!(error.print_to(&mut dst), 5);
            assert_eq!(&dst[..5], b"reset");
        }
        _ => panic!("the failure was lost"),
    }
}
