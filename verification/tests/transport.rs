use omm::{check_datagram_len, ConnId, FramingError, LossModel, TransportError, MAX_DGRAM};

#[test]
fn conn_id_roundtrips_and_displays() {
    let id = ConnId::new(42);
    assert_eq!(id.raw(), 42);
    assert_eq!(id, ConnId(42));
    assert_eq!(id.to_string(), "ConnId(42)");
}

#[test]
fn io_error_keeps_only_the_kind() {
    let io = std::io::Error::new(std::io::ErrorKind::ConnectionReset, "secret-host:1234");
    let err: TransportError = io.into();
    match err {
        TransportError::Io(kind) => assert_eq!(kind, std::io::ErrorKind::ConnectionReset),
        other => panic!("expected Io, got {other:?}"),
    }
    assert!(!err_to_string(&TransportError::Io(std::io::ErrorKind::ConnectionReset))
        .contains("secret-host"));
}

#[test]
fn closed_error_names_the_connection() {
    let err = TransportError::Closed(ConnId::new(7));
    assert_eq!(err.to_string(), "connection ConnId(7) closed");
}

fn err_to_string(e: &TransportError) -> String {
    e.to_string()
}

#[test]
fn too_large_error_reports_size_and_limit() {
    let err = TransportError::TooLarge { size: 70000, max: 65545 };
    assert_eq!(err.to_string(), "datagram too large: 70000 bytes (max 65545)");
}

#[test]
fn framing_error_converts_and_displays() {
    let err: TransportError = FramingError::Truncated { need: 10, got: 3 }.into();
    assert_eq!(err.to_string(), "framing: truncated frame: need 10 bytes, got 3");
}

#[test]
fn io_error_text_is_the_kind_description() {
    let err = TransportError::Io(std::io::ErrorKind::ConnectionReset);
    assert_eq!(err.to_string(), "transport i/o: connection reset");
}

#[test]
fn oversize_datagram_is_rejected() {
    match check_datagram_len(MAX_DGRAM + 1) {
        Err(TransportError::TooLarge { size, max }) => {
            assert_eq!(size, MAX_DGRAM + 1);
            assert_eq!(max, MAX_DGRAM);
        }
        other => panic!("expected TooLarge, got {other:?}"),
    }
    assert!(check_datagram_len(MAX_DGRAM).is_ok());
    assert!(check_datagram_len(0).is_ok());
}

#[test]
fn lossless_model_never_drops() {
    let m = LossModel::lossless();
    for n in 0..100 {
        assert!(!m.drops(n));
    }
}

#[test]
fn loss_model_follows_its_rule() {
    let m = LossModel::new(|n| n % 10 < 3);
    let dropped: Vec<u64> = (0..20).filter(|&n| m.drops(n)).collect();
    assert_eq!(dropped, vec![0, 1, 2, 10, 11, 12]);
}
