use server_poll::error::QueryError;
use server_poll::wire::{Reader, ServerResponse, QUERY_REQUEST};

fn response(name: &str, map: &str, folder: &str, game: &str) -> ServerResponse {
    ServerResponse {
        header: 0x49,
        protocol: 17,
        name: name.to_string(),
        map: map.to_string(),
        folder: folder.to_string(),
        game: game.to_string(),
        id: 730,
        players: 12,
        max_players: 24,
        bots: 3,
    }
}

#[test]
fn decodes_sample_response() {
    let data = [0x00, 0x01, b'A', 0, b'M', 0, b'F', 0, b'G', 0, 0x05, 0x00, 10, 16, 2];
    let info = ServerResponse::from_data(&data).unwrap();
    assert_eq!(info.header, 0);
    assert_eq!(info.protocol, 1);
    assert_eq!(info.name, "A");
    assert_eq!(info.map, "M");
    assert_eq!(info.folder, "F");
    assert_eq!(info.game, "G");
    assert_eq!(info.id, 5);
    assert_eq!(info.players, 10);
    assert_eq!(info.max_players, 16);
    assert_eq!(info.bots, 2);
}

#[test]
fn id_is_read_low_byte_first() {
    let data = [0xff, 0x11, 0, 0, 0, 0, 0x34, 0x12, 1, 2, 3];
    let info = ServerResponse::from_data(&data).unwrap();
    assert_eq!(info.id, 0x1234);
    assert_eq!(info.header, 0xff);
    assert_eq!(info.protocol, 0x11);
    assert_eq!(info.name, "");
    assert_eq!(info.game, "");
    assert_eq!((info.players, info.max_players, info.bots), (1, 2, 3));
}

#[test]
fn any_header_and_protocol_are_accepted() {
    for header in [0u8, 0x49, 0x6d, 0xff] {
        let data = [header, 0xfe, 0, 0, 0, 0, 0, 0, 0, 0, 0];
        let info = ServerResponse::from_data(&data).unwrap();
        assert_eq!(info.header, header);
        assert_eq!(info.protocol, 0xfe);
    }
}

#[test]
fn empty_buffer_is_malformed() {
    assert_eq!(ServerResponse::from_data(&[]), Err(QueryError::MalformedResponse));
}

#[test]
fn every_truncation_is_malformed() {
    let data = response("Frag Shack", "de_dust2", "csgo", "Counter-Strike").to_data();
    for cut in 0..data.len() {
        assert_eq!(
            ServerResponse::from_data(&data[..cut]),
            Err(QueryError::MalformedResponse),
            "cut at {}",
            cut
        );
    }
    assert!(ServerResponse::from_data(&data).is_ok());
}

#[test]
fn text_without_terminator_is_malformed() {
    let data = [0, 1, b'A', b'B', b'C'];
    assert_eq!(ServerResponse::from_data(&data), Err(QueryError::MalformedResponse));
    let data = [0, 1, b'A', 0, b'M', 0, b'F', 0, b'G', b'G', b'G'];
    assert_eq!(ServerResponse::from_data(&data), Err(QueryError::MalformedResponse));
}

#[test]
fn missing_last_byte_is_malformed() {
    let data = [0x00, 0x01, b'A', 0, b'M', 0, b'F', 0, b'G', 0, 0x05, 0x00, 10, 16];
    assert_eq!(ServerResponse::from_data(&data), Err(QueryError::MalformedResponse));
    let data = [0x00, 0x01, b'A', 0, b'M', 0, b'F', 0, b'G', 0, 0x05];
    assert_eq!(ServerResponse::from_data(&data), Err(QueryError::MalformedResponse));
}

#[test]
fn trailing_bytes_are_ignored() {
    let mut data = response("n", "m", "f", "g").to_data();
    let plain = ServerResponse::from_data(&data).unwrap();
    data.extend_from_slice(&[9, 0, 9, 0, 0xff]);
    assert_eq!(ServerResponse::from_data(&data).unwrap(), plain);
}

#[test]
fn encoding_lays_fields_out_in_order() {
    let data = response("ab", "c", "", "d").to_data();
    assert_eq!(
        data,
        vec![0x49, 17, b'a', b'b', 0, b'c', 0, 0, b'd', 0, 0xda, 0x02, 12, 24, 3]
    );
}

#[test]
fn decoding_undoes_encoding() {
    let long = "x".repeat(5000);
    let samples = [
        response("Frag Shack", "de_dust2", "csgo", "Counter-Strike: Global Offensive"),
        response("", "", "", ""),
        response("", "only map", "", ""),
        response(&long, &long, &long, &long),
        response("caf\u{e9} \u{4e16}\u{754c} \u{1f600}", "m\u{fc}nchen", "\u{7f}", "\u{80}"),
    ];
    for sample in samples {
        let data = sample.to_data();
        assert_eq!(ServerResponse::from_data(&data), Ok(sample));
    }
}

#[test]
fn decoding_undoes_encoding_for_extreme_numbers() {
    for (id, players, max_players, bots) in [(0u16, 0u8, 0u8, 0u8), (0xffff, 255, 255, 255), (256, 1, 0, 7)] {
        let mut sample = response("s", "m", "f", "g");
        sample.id = id;
        sample.players = players;
        sample.max_players = max_players;
        sample.bots = bots;
        sample.header = players;
        sample.protocol = bots;
        assert_eq!(ServerResponse::from_data(&sample.to_data()), Ok(sample));
    }
}

#[test]
fn invalid_text_is_replaced_not_refused() {
    let data = [0, 1, 0xff, b'A', 0, 0xc3, 0, b'F', 0, 0xe4, 0xb8, 0x96, 0, 0, 0, 1, 2, 0];
    let info = ServerResponse::from_data(&data).unwrap();
    assert_eq!(info.name, "\u{fffd}A");
    assert_eq!(info.map, "\u{fffd}");
    assert_eq!(info.folder, "F");
    assert_eq!(info.game, "\u{4e16}");
    assert_eq!(info.players, 1);
}

#[test]
fn text_field_reader_steps_past_terminator() {
    let data = [b'h', b'i', 0, b'x', 0];
    let mut rdr = Reader::new(&data);
    assert_eq!(ServerResponse::variable_length_string(&mut rdr), Ok("hi".to_string()));
    assert_eq!(rdr.pos, 3);
    assert_eq!(ServerResponse::variable_length_string(&mut rdr), Ok("x".to_string()));
    assert_eq!(rdr.pos, 5);
    assert_eq!(
        ServerResponse::variable_length_string(&mut rdr),
        Err(QueryError::MalformedResponse)
    );
    assert_eq!(rdr.pos, 5);
}

#[test]
fn text_field_reader_fails_at_end_of_buffer() {
    let data = [b'h', b'i'];
    let mut rdr = Reader::new(&data);
    assert_eq!(
        ServerResponse::variable_length_string(&mut rdr),
        Err(QueryError::MalformedResponse)
    );
    assert_eq!(rdr.pos, 2);
    let mut beyond = Reader { data: &data, pos: 7 };
    assert_eq!(
        ServerResponse::variable_length_string(&mut beyond),
        Err(QueryError::MalformedResponse)
    );
    assert_eq!(beyond.pos, 7);
}

#[test]
fn reader_reads_bytes_and_words() {
    let data = [7, 0x01, 0x02, 0xfe];
    let mut rdr = Reader::new(&data);
    assert_eq!(rdr.read_u8(), Ok(7));
    assert_eq!(rdr.read_u16(), Ok(0x0201));
    assert_eq!(rdr.pos, 3);
    assert_eq!(rdr.read_u16(), Err(QueryError::MalformedResponse));
    assert_eq!(rdr.pos, 3);
    assert_eq!(rdr.read_u8(), Ok(0xfe));
    assert_eq!(rdr.read_u8(), Err(QueryError::MalformedResponse));
    assert_eq!(rdr.pos, 4);
}

#[test]
fn query_request_is_the_fixed_datagram() {
    assert_eq!(QUERY_REQUEST.len(), 25);
    assert_eq!(&QUERY_REQUEST[..4], &[0xff, 0xff, 0xff, 0xff]);
    assert_eq!(&QUERY_REQUEST[4..24], "TSource Engine Query".as_bytes());
    assert_eq!(QUERY_REQUEST[24], 0);
}
