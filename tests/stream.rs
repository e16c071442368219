use noterm::events::{Event, KeyCode, KeyEvent, KeyModifiers};
use noterm::io::Error;
use noterm::stream::{Context, Pull, BUFFER_CAPACITY, QUEUE_CAPACITY};

fn key(code: KeyCode) -> Event {
    Event::Key(KeyEvent::from(code))
}

/// Feeds each chunk in turn, pulling every item that comes out, as a consumer does.
fn run(chunks: &[&[u8]]) -> Vec<Result<Event, Error>> {
    let mut cx = Context::new();
    let mut items = Vec::new();
    let mut next = 0;
    loop {
        match cx.poll() {
            Pull::Item(item) => items.push(item),
            Pull::End => return items,
            Pull::NeedBytes => {
                let chunk: &[u8] = if next < chunks.len() { chunks[next] } else { &[] };
                next += 1;
                if let Some(item) = cx.receive(Ok(chunk)) {
                    items.push(item);
                }
            }
        }
    }
}

#[test]
fn it_should_stream_empty_events() {
    let mut cx = Context::new();
    assert_eq!(cx.poll(), Pull::NeedBytes);
    assert_eq!(cx.receive(Ok(b"")), None);
    assert_eq!(cx.poll(), Pull::End);
}

#[test]
fn it_should_stream_single_key_event() {
    let mut cx = Context::new();
    assert_eq!(cx.poll(), Pull::NeedBytes);
    assert_eq!(cx.receive(Ok(b"\x0d")), None);
    assert_eq!(cx.poll(), Pull::Item(Ok(key(KeyCode::Enter))));
}

#[test]
fn end_of_input_is_final() {
    let mut cx = Context::new();
    assert_eq!(cx.receive(Ok(b"")), None);
    assert_eq!(cx.poll(), Pull::End);
    assert_eq!(cx.poll(), Pull::End);
    assert_eq!(cx.poll(), Pull::End);
}

#[test]
fn byte_at_a_time_delivery() {
    let items = run(&[b"\x1b", b"[", b"1", b"5", b";", b"2", b"~"]);
    assert_eq!(items, vec![Ok(Event::Key(KeyEvent::from(KeyCode::Fn(5)).with_modifiers(KeyModifiers::shift())))]);
}

#[test]
fn split_delivery_gives_the_same_event() {
    let whole: &[u8] = b"\x1b[97;1;65u";
    let expected = run(&[whole]);
    assert_eq!(expected, vec![Ok(Event::Key(KeyEvent::from(KeyCode::Char('a')).with_modifiers(KeyModifiers::shift())))]);
    for k in 1..whole.len() {
        assert_eq!(run(&[&whole[..k], &whole[k..]]), expected, "split at {}", k);
    }
    let up: &[u8] = b"\x1bOA";
    for k in 1..up.len() {
        assert_eq!(run(&[&up[..k], &up[k..]]), vec![Ok(key(KeyCode::Up))]);
    }
}

#[test]
fn events_come_out_in_order() {
    let items = run(&[b"ab\x1bOA\r"]);
    assert_eq!(
        items,
        vec![Ok(key(KeyCode::Char('a'))), Ok(key(KeyCode::Char('b'))), Ok(key(KeyCode::Up)), Ok(key(KeyCode::Enter))]
    );
}

#[test]
fn overflow_of_the_queue_drops_the_oldest() {
    assert_eq!(QUEUE_CAPACITY, 32);
    assert_eq!(BUFFER_CAPACITY, 32);
    let mut cx = Context::new();
    let first: Vec<u8> = (b'a'..=b'z').collect();
    let second: Vec<u8> = b"0123456789".to_vec();
    assert_eq!(cx.receive(Ok(&first)), None);
    assert_eq!(cx.receive(Ok(&second)), None);
    let mut got = Vec::new();
    while let Pull::Item(item) = cx.poll() {
        got.push(item);
    }
    let all: Vec<u8> = first.iter().chain(second.iter()).copied().collect();
    let expected: Vec<Result<Event, Error>> =
        all[all.len() - 32..].iter().map(|b| Ok(key(KeyCode::Char(*b as char)))).collect();
    assert_eq!(got.len(), 32);
    assert_eq!(got, expected);
}

#[test]
fn read_failure_is_reported_and_clears_the_state() {
    let mut cx = Context::new();
    assert_eq!(cx.receive(Ok(b"\x1b[1")), None);
    assert_eq!(cx.receive(Err(Error::Unknown)), Some(Err(Error::Unknown)));
    assert_eq!(cx.poll(), Pull::NeedBytes);
    assert_eq!(cx.receive(Ok(b"x")), None);
    assert_eq!(cx.poll(), Pull::Item(Ok(key(KeyCode::Char('x')))));
}

#[test]
fn invalid_text_is_reported_and_dropped() {
    let mut cx = Context::new();
    assert_eq!(cx.receive(Ok(&[0xff])), Some(Err(Error::InvalidText)));
    assert_eq!(cx.poll(), Pull::NeedBytes);
    assert_eq!(cx.receive(Ok("é".as_bytes())), None);
    assert_eq!(cx.poll(), Pull::Item(Ok(key(KeyCode::Char('é')))));
}

#[test]
fn split_multibyte_character_is_invalid_text() {
    let bytes = "é".as_bytes();
    let mut cx = Context::new();
    assert_eq!(cx.receive(Ok(&bytes[..1])), Some(Err(Error::InvalidText)));
}

#[test]
fn malformed_sequence_clears_the_state_and_is_reported() {
    let items = run(&[b"a\x1b[99~b"]);
    assert_eq!(items, vec![Err(Error::Malformed)]);
    let items = run(&[b"a", b"\x1b[99~", b"b"]);
    assert_eq!(items, vec![Ok(key(KeyCode::Char('a'))), Err(Error::Malformed), Ok(key(KeyCode::Char('b')))]);
    let mut cx = Context::new();
    assert_eq!(cx.receive(Ok(b"xy\x1b[15;300~")), Some(Err(Error::Malformed)));
    assert_eq!(cx.poll(), Pull::NeedBytes);
}

#[test]
fn unfinished_sequence_that_fills_the_buffer_overflows() {
    let mut cx = Context::new();
    let mut long = b"\x1b[".to_vec();
    long.extend(std::iter::repeat(b'1').take(30));
    assert_eq!(cx.receive(Ok(&long)), None);
    assert_eq!(cx.poll(), Pull::NeedBytes);
    assert_eq!(cx.receive(Ok(b"1")), Some(Err(Error::Overflow)));
    assert_eq!(cx.receive(Ok(b"q")), None);
    assert_eq!(cx.poll(), Pull::Item(Ok(key(KeyCode::Char('q')))));
}

#[test]
fn queued_items_come_out_before_the_end() {
    let mut cx = Context::new();
    assert_eq!(cx.receive(Ok(b"ab")), None);
    assert_eq!(cx.receive(Ok(b"")), None);
    assert_eq!(cx.poll(), Pull::Item(Ok(key(KeyCode::Char('a')))));
    assert_eq!(cx.poll(), Pull::Item(Ok(key(KeyCode::Char('b')))));
    assert_eq!(cx.poll(), Pull::End);
}

#[test]
fn reads_after_the_end_change_nothing() {
    let mut cx = Context::new();
    assert_eq!(cx.receive(Ok(b"")), None);
    assert_eq!(cx.receive(Ok(b"x")), None);
    assert_eq!(cx.receive(Err(Error::Unknown)), None);
    assert_eq!(cx.poll(), Pull::End);
}

#[test]
fn split_delivery_of_a_sequence_with_text() {
    let whole: &[u8] = b"\x1b[97;1:1;a;bu";
    let expected = vec![Ok(Event::Key(KeyEvent::from(KeyCode::Char('a')).with_modifiers(KeyModifiers::shift())))];
    assert_eq!(run(&[whole]), expected);
    for k in 1..whole.len() {
        assert_eq!(run(&[&whole[..k], &whole[k..]]), expected, "split at {}", k);
    }
}
