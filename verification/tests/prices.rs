use protohackers::prices::{
    handle_request, InsertMessage, QueryMessage, Request, Response, SessionPrices,
};

#[test]
fn parses_an_insert_message_to_a_request() {
    // Arrange
    let mut network_data = vec![b'I'];
    let ts = 12345_i32.to_be_bytes().to_vec();
    let price = 101_i32.to_be_bytes().to_vec();

    network_data.extend(ts);
    network_data.extend(price);

    // Act
    let req = Request::new(&network_data).unwrap();

    // Assert
    assert_eq!(
        req,
        Request::Insert(InsertMessage {
            timestamp: 12345,
            price: 101
        })
    );
}

#[test]
fn parses_a_query_message_to_a_request() {
    // Arrange
    let mut network_data = vec![b'Q'];
    let min_ts = 100_i32.to_be_bytes().to_vec();
    let max_ts = 10000_i32.to_be_bytes().to_vec();

    network_data.extend(min_ts);
    network_data.extend(max_ts);

    // Act
    let req = Request::new(&network_data).unwrap();

    // Assert
    assert_eq!(
        req,
        Request::Query(QueryMessage {
            min_time: 100,
            max_time: 10000
        })
    );
}

#[test]
fn converts_a_response_to_bytes() {
    let res = Response { mean: 5107 };

    let bytes = res.to_bytes();

    // 19 * 256 + 243 == 5107
    assert_eq!([0, 0, 19, 243], bytes)
}

#[test]
fn process_a_session() {
    // Arrange
    let mut session_prices = SessionPrices::new();

    let i1 = InsertMessage {
        timestamp: 100,
        price: 100,
    };

    let i2 = InsertMessage {
        timestamp: 105,
        price: 102,
    };

    let i3 = InsertMessage {
        timestamp: 103,
        price: 102,
    };

    let q1 = QueryMessage {
        min_time: 100,
        max_time: 103,
    };

    // Act
    i1.process(&mut session_prices).unwrap();
    i2.process(&mut session_prices).unwrap();
    i3.process(&mut session_prices).unwrap();
    let mean = q1.process(&session_prices).unwrap();

    // Assert
    assert_eq!(mean, 101);
}

#[test]
fn rejects_an_empty_request() {
    let req = Request::new(&[]);
    assert_eq!(req, Err("Unknown message type"));
}

#[test]
fn rejects_an_unknown_message_type() {
    let network_data = [b'X', 0, 0, 0, 1, 0, 0, 0, 2];
    let req = Request::new(&network_data);
    assert_eq!(req, Err("Unknown message type"));
}

#[test]
fn rejects_a_short_insert_frame() {
    let network_data = [b'I', 0, 0, 0, 1, 0];
    let req = Request::new(&network_data);
    assert_eq!(req, Err("cannot convert to i32"));
}

#[test]
fn parses_negative_fields() {
    let mut network_data = vec![b'I'];
    network_data.extend((-5_i32).to_be_bytes().to_vec());
    network_data.extend((-7_i32).to_be_bytes().to_vec());
    let req = Request::new(&network_data).unwrap();
    assert_eq!(
        req,
        Request::Insert(InsertMessage {
            timestamp: -5,
            price: -7
        })
    );
}

#[test]
fn rejects_a_duplicate_timestamp() {
    let mut session_prices = SessionPrices::new();
    let i1 = InsertMessage {
        timestamp: 42,
        price: 1,
    };
    let i2 = InsertMessage {
        timestamp: 42,
        price: 2,
    };
    assert!(i1.process(&mut session_prices).is_ok());
    assert_eq!(
        i2.process(&mut session_prices),
        Err("timestamp already exists")
    );
}

#[test]
fn query_of_empty_window_is_zero() {
    let mut session_prices = SessionPrices::new();
    let i1 = InsertMessage {
        timestamp: 10,
        price: 999,
    };
    i1.process(&mut session_prices).unwrap();
    let q_empty = QueryMessage {
        min_time: 100,
        max_time: 200,
    };
    assert_eq!(q_empty.process(&session_prices), Ok(0));
    let q_inverted = QueryMessage {
        min_time: 20,
        max_time: 5,
    };
    assert_eq!(q_inverted.process(&session_prices), Ok(0));
}

#[test]
fn negative_mean_truncates_towards_zero() {
    let mut session_prices = SessionPrices::new();
    let i1 = InsertMessage {
        timestamp: 1,
        price: -3,
    };
    let i2 = InsertMessage {
        timestamp: 2,
        price: -4,
    };
    i1.process(&mut session_prices).unwrap();
    i2.process(&mut session_prices).unwrap();
    let q = QueryMessage {
        min_time: 1,
        max_time: 2,
    };
    assert_eq!(q.process(&session_prices), Ok(-3));
}

#[test]
fn converts_a_negative_response_to_bytes() {
    let res = Response { mean: -1 };
    assert_eq!([255, 255, 255, 255], res.to_bytes());
}

#[test]
fn handles_a_whole_session_of_frames() {
    let mut session_prices = SessionPrices::new();

    let mut insert = vec![b'I'];
    insert.extend(100_i32.to_be_bytes().to_vec());
    insert.extend(7_i32.to_be_bytes().to_vec());
    assert!(matches!(
        handle_request(&insert, &mut session_prices),
        Ok(None)
    ));

    let mut insert2 = vec![b'I'];
    insert2.extend(200_i32.to_be_bytes().to_vec());
    insert2.extend(9_i32.to_be_bytes().to_vec());
    assert!(matches!(
        handle_request(&insert2, &mut session_prices),
        Ok(None)
    ));

    let mut query = vec![b'Q'];
    query.extend(0_i32.to_be_bytes().to_vec());
    query.extend(300_i32.to_be_bytes().to_vec());
    match handle_request(&query, &mut session_prices) {
        Ok(Some(resp)) => {
            assert_eq!(resp.mean, 8);
            assert_eq!(resp.to_bytes(), 8_i32.to_be_bytes());
        }
        other => panic!("expected a query response, got {:?}", other.map(|_| ())),
    }

    let bad = [b'Z', 0, 0, 0, 0, 0, 0, 0, 0];
    assert!(handle_request(&bad, &mut session_prices).is_err());
}
