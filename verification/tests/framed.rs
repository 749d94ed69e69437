use rs_linkfusion::accel::{AccelBackend, AccelError, PayloadAccelerator};
use rs_linkfusion::framed::{
    frame_sealed, header_length, length_header, read_frame, write_frame, FrameError, FrameReader,
    ReadEvent, ReadStep,
};
use tokio::io::{AsyncReadExt, AsyncWriteExt, DuplexStream};

fn wire(accel: &PayloadAccelerator, payload: &[u8]) -> Vec<u8> {
    let frame = write_frame(accel, payload).unwrap();
    let mut bytes = frame.header.to_vec();
    bytes.extend_from_slice(&frame.body);
    bytes
}

async fn send(stream: &mut DuplexStream, accel: &PayloadAccelerator, payload: &[u8]) {
    let frame = write_frame(accel, payload).unwrap();
    stream.write_all(&frame.header).await.unwrap();
    stream.write_all(&frame.body).await.unwrap();
    stream.flush().await.unwrap();
}

async fn receive(stream: &mut DuplexStream, accel: &PayloadAccelerator) -> Option<Vec<u8>> {
    let mut reader = FrameReader::new();
    loop {
        let mut bytes = vec![0u8; reader.wanted()];
        let event = match stream.read_exact(&mut bytes).await {
            Ok(_) => ReadEvent::Filled(bytes),
            Err(_) => ReadEvent::Eof,
        };
        match reader.step(accel, event) {
            ReadStep::More(following) => reader = following,
            ReadStep::Deliver(payload) => return Some(payload),
            ReadStep::End => return None,
            ReadStep::Fail(error) => panic!("{error:?}"),
        }
    }
}

#[test]
fn frame_round_trips_over_a_real_in_memory_duplex_stream() {
    let key = PayloadAccelerator::generate_key();
    let accel = PayloadAccelerator::new(AccelBackend::Cpu, &key);
    let runtime = tokio::runtime::Builder::new_current_thread().build().unwrap();
    let received = runtime.block_on(async {
        let (mut a, mut b) = tokio::io::duplex(4096);
        send(&mut a, &accel, b"hello over the bonded tunnel").await;
        receive(&mut b, &accel).await.unwrap()
    });
    assert_eq!(received, b"hello over the bonded tunnel");
}

#[test]
fn multiple_frames_in_sequence_are_read_back_in_order() {
    let key = PayloadAccelerator::generate_key();
    let accel = PayloadAccelerator::new(AccelBackend::Cpu, &key);
    let runtime = tokio::runtime::Builder::new_current_thread().build().unwrap();
    let out = runtime.block_on(async {
        let (mut a, mut b) = tokio::io::duplex(8192);
        for msg in [b"first".to_vec(), b"second".to_vec(), b"third".to_vec()] {
            send(&mut a, &accel, &msg).await;
        }
        drop(a);
        let mut out = Vec::new();
        while let Some(frame) = receive(&mut b, &accel).await {
            out.push(frame);
        }
        out
    });
    assert_eq!(out, vec![b"first".to_vec(), b"second".to_vec(), b"third".to_vec()]);
}

#[test]
fn read_frame_reads_a_buffer_frame_by_frame() {
    let accel = PayloadAccelerator::new(AccelBackend::Cpu, &[5u8; 32]);
    let mut bytes = wire(&accel, b"one");
    let first_len = bytes.len();
    bytes.extend(wire(&accel, b"two"));
    let (payload, used) = read_frame(&accel, &bytes).unwrap().unwrap();
    assert_eq!(payload, b"one");
    assert_eq!(used, first_len);
    let (payload, more) = read_frame(&accel, &bytes[used..]).unwrap().unwrap();
    assert_eq!(payload, b"two");
    assert_eq!(used + more, bytes.len());
    assert!(read_frame(&accel, &bytes[used + more..]).unwrap().is_none());
}

#[test]
fn header_is_little_endian() {
    assert_eq!(length_header(0), [0, 0, 0, 0]);
    assert_eq!(length_header(0x0403_0201), [1, 2, 3, 4]);
    assert_eq!(length_header(u32::MAX), [255, 255, 255, 255]);
    assert_eq!(header_length(&[1, 2, 3, 4]), 0x0403_0201);
    for n in [0u32, 1, 255, 256, 65_535, 65_536, 16_777_216, u32::MAX] {
        assert_eq!(length_header(n), n.to_le_bytes());
        assert_eq!(header_length(&length_header(n)), n);
    }
}

#[test]
fn frame_has_the_length_of_its_body_before_it() {
    let frame = frame_sealed(vec![9u8; 300]);
    assert_eq!(frame.header, [44, 1, 0, 0]);
    assert_eq!(frame.body, vec![9u8; 300]);
}

#[test]
fn cut_frames_deliver_nothing() {
    let accel = PayloadAccelerator::new(AccelBackend::Cpu, &[5u8; 32]);
    let bytes = wire(&accel, b"cut me short");
    for kept in 0..bytes.len() {
        let outcome = read_frame(&accel, &bytes[..kept]);
        if kept < 4 {
            assert!(matches!(outcome, Ok(None)));
        } else {
            assert!(matches!(outcome, Err(FrameError::Truncated)));
        }
    }
}

#[test]
fn body_that_does_not_open_is_rejected() {
    let accel = PayloadAccelerator::new(AccelBackend::Cpu, &[5u8; 32]);
    let mut bytes = wire(&accel, b"tamper with me");
    let last = bytes.len() - 1;
    bytes[last] ^= 1;
    assert!(matches!(
        read_frame(&accel, &bytes),
        Err(FrameError::Rejected(AccelError::Decrypt(_)))
    ));
    assert!(matches!(
        read_frame(&accel, &[0, 0, 0, 0]),
        Err(FrameError::Rejected(AccelError::FrameTooShort))
    ));
}

#[test]
fn rejected_body_carries_the_error_of_opening_it() {
    let accel = PayloadAccelerator::new(AccelBackend::Cpu, &[5u8; 32]);
    for len in 0..40u32 {
        let step = FrameReader::Body(len).step(&accel, ReadEvent::Filled(vec![0; len as usize]));
        match step {
            ReadStep::Fail(FrameError::Rejected(AccelError::FrameTooShort)) => assert!(len < 12),
            ReadStep::Fail(FrameError::Rejected(AccelError::Decrypt(_))) => assert!(len >= 12),
            step => panic!("{step:?}"),
        }
    }
}

#[test]
fn reader_asks_for_the_header_and_then_for_the_body() {
    let accel = PayloadAccelerator::new(AccelBackend::Cpu, &[5u8; 32]);
    let reader = FrameReader::new();
    assert_eq!(reader, FrameReader::Header);
    assert_eq!(reader.wanted(), 4);
    let body = match reader.step(&accel, ReadEvent::Filled(vec![200, 1, 0, 0])) {
        ReadStep::More(following) => following,
        step => panic!("{step:?}"),
    };
    assert_eq!(body, FrameReader::Body(456));
    assert_eq!(body.wanted(), 456);
    assert!(matches!(
        body.step(&accel, ReadEvent::Eof),
        ReadStep::Fail(FrameError::Truncated)
    ));
    assert!(matches!(FrameReader::new().step(&accel, ReadEvent::Eof), ReadStep::End));
}
