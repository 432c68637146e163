use simadmin_ims::transport::{gather, Read, Then};

#[test]
fn whole_answer_is_taken() {
    let mut got: Vec<u8> = Vec::new();
    assert_eq!(gather(&mut got, Read::Data(b"SIP/2.0 200 OK\r\n".to_vec())), Then::Again);
    assert_eq!(gather(&mut got, Read::Nothing), Then::Pause(50));
    assert_eq!(gather(&mut got, Read::Data(b"\r\n".to_vec())), Then::Take);
    assert_eq!(got, b"SIP/2.0 200 OK\r\n\r\n".to_vec());
}

#[test]
fn time_and_failures_end_the_reading() {
    let mut got: Vec<u8> = b"part".to_vec();
    assert_eq!(gather(&mut got, Read::Expired), Then::Take);
    assert_eq!(gather(&mut got, Read::Failed), Then::Take);
    assert_eq!(got, b"part".to_vec());
}

#[test]
fn long_answers_are_cut_off() {
    let mut got: Vec<u8> = Vec::new();
    assert_eq!(gather(&mut got, Read::Data(vec![b'x'; 8191])), Then::Again);
    assert_eq!(gather(&mut got, Read::Data(vec![b'x'])), Then::Take);
    assert_eq!(gather(&mut got, Read::Nothing), Then::Take);
    assert_eq!(got.len(), 8192);
}

#[test]
fn answer_is_a_prefix_of_the_stream() {
    let stream: Vec<u8> = (0..20000usize).map(|i| (i % 251) as u8).collect();
    let mut got: Vec<u8> = Vec::new();
    for chunk in stream.chunks(4096) {
        if gather(&mut got, Read::Data(chunk.to_vec())) == Then::Take {
            break;
        }
        assert_eq!(gather(&mut got, Read::Nothing), Then::Pause(50));
    }
    assert_eq!(got.len(), 8192);
    assert_eq!(&got[..], &stream[..got.len()]);

    let mut long: Vec<u8> = Vec::new();
    assert_eq!(gather(&mut long, Read::Data(vec![1u8; 8191])), Then::Again);
    assert_eq!(gather(&mut long, Read::Data(vec![2u8; 4096])), Then::Take);
    assert_eq!(long.len(), 8191 + 4096);
}
