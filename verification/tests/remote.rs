use versioned_store::plan::Mutation;
use versioned_store::remote::{
    atomic_pipeline, block_data_query, latest_query, payload_query, write_pipeline,
};

#[test]
fn write_pipeline_is_one_transaction_of_three_commands() {
    let pipeline = write_pipeline(5, b"k", b"v");
    assert!(pipeline.is_transaction());
    assert_eq!(pipeline.len(), 3);
    let mut expected: Vec<u8> = Vec::new();
    expected.extend_from_slice(b"*1\r\n$5\r\nMULTI\r\n");
    expected.extend_from_slice(b"*3\r\n$4\r\nZREM\r\n$8\r\nmemory:k\r\n$9\r\n");
    expected.extend_from_slice(&[5, 0, 0, 0, 0, 0, 0, 0, b'k']);
    expected.extend_from_slice(b"\r\n*4\r\n$4\r\nZADD\r\n$8\r\nmemory:k\r\n$1\r\n5\r\n$9\r\n");
    expected.extend_from_slice(&[5, 0, 0, 0, 0, 0, 0, 0, b'k']);
    expected.extend_from_slice(b"\r\n*4\r\n$4\r\nHSET\r\n$11\r\nmemory_hash\r\n$9\r\n");
    expected.extend_from_slice(&[5, 0, 0, 0, 0, 0, 0, 0, b'k']);
    expected.extend_from_slice(b"\r\n$1\r\nv\r\n");
    expected.extend_from_slice(b"*1\r\n$4\r\nEXEC\r\n");
    assert_eq!(pipeline.get_packed_pipeline(), expected);
}

#[test]
fn write_pipeline_matches_the_chained_builder() {
    let id: Vec<u8> = vec![0, 1, 0, 0, 0, 0, 0, 0, b'K', b'2'];
    let mut chained = redis::pipe();
    chained
        .atomic()
        .cmd("ZREM")
        .arg(b"memory:K2".to_vec())
        .arg(id.clone())
        .ignore()
        .cmd("ZADD")
        .arg(b"memory:K2".to_vec())
        .arg(256u64)
        .arg(id.clone())
        .ignore()
        .cmd("HSET")
        .arg("memory_hash")
        .arg(id.clone())
        .arg(b"payload".to_vec())
        .ignore();
    let pipeline = write_pipeline(256, b"K2", b"payload");
    assert_eq!(pipeline.get_packed_pipeline(), chained.get_packed_pipeline());
}

#[test]
fn write_pipeline_writes_the_score_in_decimal() {
    let pipeline = write_pipeline(u64::MAX, b"", b"");
    let commands: Vec<Vec<Vec<u8>>> = pipeline
        .cmd_iter()
        .map(|cmd| {
            cmd.args_iter()
                .map(|arg| match arg {
                    redis::Arg::Simple(bytes) => bytes.to_vec(),
                    _ => panic!("unexpected argument"),
                })
                .collect()
        })
        .collect();
    assert_eq!(
        commands,
        vec![
            vec![b"ZREM".to_vec(), b"memory:".to_vec(), vec![255u8; 8]],
            vec![
                b"ZADD".to_vec(),
                b"memory:".to_vec(),
                b"18446744073709551615".to_vec(),
                vec![255u8; 8],
            ],
            vec![b"HSET".to_vec(), b"memory_hash".to_vec(), vec![255u8; 8], vec![]],
        ]
    );
}

#[test]
fn write_pipeline_of_block_zero() {
    let pipeline = write_pipeline(0, b"a", b"b");
    let zadd = pipeline.cmd_iter().nth(1).unwrap().get_packed_command();
    let mut expected: Vec<u8> = Vec::new();
    expected.extend_from_slice(b"*4\r\n$4\r\nZADD\r\n$8\r\nmemory:a\r\n$1\r\n0\r\n$9\r\n");
    expected.extend_from_slice(&[0, 0, 0, 0, 0, 0, 0, 0, b'a']);
    expected.extend_from_slice(b"\r\n");
    assert_eq!(zadd, expected);
}

#[test]
fn atomic_pipeline_of_no_step_is_an_empty_transaction() {
    let pipeline = atomic_pipeline(&vec![]);
    assert!(pipeline.is_transaction());
    assert!(pipeline.is_empty());
    assert_eq!(
        pipeline.get_packed_pipeline(),
        b"*1\r\n$5\r\nMULTI\r\n*1\r\n$4\r\nEXEC\r\n".to_vec()
    );
}

#[test]
fn atomic_pipeline_keeps_the_order_of_steps() {
    let group = vec![
        Mutation::ContentSet { field: b"f".to_vec(), value: b"v".to_vec() },
        Mutation::IndexRemove { namespace: b"n".to_vec(), member: b"m".to_vec() },
    ];
    let pipeline = atomic_pipeline(&group);
    let mut expected: Vec<u8> = Vec::new();
    expected.extend_from_slice(b"*1\r\n$5\r\nMULTI\r\n");
    expected.extend_from_slice(b"*4\r\n$4\r\nHSET\r\n$11\r\nmemory_hash\r\n$1\r\nf\r\n$1\r\nv\r\n");
    expected.extend_from_slice(b"*3\r\n$4\r\nZREM\r\n$1\r\nn\r\n$1\r\nm\r\n");
    expected.extend_from_slice(b"*1\r\n$4\r\nEXEC\r\n");
    assert_eq!(pipeline.get_packed_pipeline(), expected);
}

#[test]
fn latest_query_asks_for_the_top_member() {
    let cmd = latest_query(b"k");
    assert_eq!(
        cmd.get_packed_command(),
        b"*7\r\n$16\r\nZREVRANGEBYSCORE\r\n$8\r\nmemory:k\r\n$4\r\n+inf\r\n$4\r\n-inf\r\n$5\r\nLIMIT\r\n$1\r\n0\r\n$1\r\n1\r\n"
            .to_vec()
    );
}

#[test]
fn payload_query_asks_the_content_hash() {
    let cmd = payload_query(&[1, 0, 0, 0, 0, 0, 0, 0, b'k']);
    let mut expected: Vec<u8> = Vec::new();
    expected.extend_from_slice(b"*3\r\n$4\r\nHGET\r\n$11\r\nmemory_hash\r\n$9\r\n");
    expected.extend_from_slice(&[1, 0, 0, 0, 0, 0, 0, 0, b'k']);
    expected.extend_from_slice(b"\r\n");
    assert_eq!(cmd.get_packed_command(), expected);
}

#[test]
fn block_data_query_asks_for_the_whole_list() {
    let cmd = block_data_query();
    assert_eq!(
        cmd.get_packed_command(),
        b"*4\r\n$6\r\nLRANGE\r\n$13\r\ncurrent_block\r\n$1\r\n0\r\n$2\r\n-1\r\n".to_vec()
    );
}

struct ScriptedConnection {
    sent: Vec<u8>,
    replies: Vec<redis::Value>,
}

impl redis::ConnectionLike for ScriptedConnection {
    fn req_packed_command(&mut self, cmd: &[u8]) -> redis::RedisResult<redis::Value> {
        self.sent.extend_from_slice(cmd);
        Ok(self.replies.remove(0))
    }

    fn req_packed_commands(
        &mut self,
        cmd: &[u8],
        _offset: usize,
        _count: usize,
    ) -> redis::RedisResult<Vec<redis::Value>> {
        self.sent.extend_from_slice(cmd);
        Ok(vec![self.replies.remove(0)])
    }

    fn get_db(&self) -> i64 {
        0
    }

    fn check_connection(&mut self) -> bool {
        true
    }

    fn is_open(&self) -> bool {
        true
    }
}

#[test]
fn write_pipeline_drops_every_reply() {
    let mut connection = ScriptedConnection {
        sent: Vec::new(),
        replies: vec![redis::Value::Array(vec![
            redis::Value::Int(0),
            redis::Value::Int(1),
            redis::Value::Int(1),
        ])],
    };
    let pipeline = write_pipeline(1, b"k", b"v");
    let kept: Vec<redis::Value> = pipeline.query(&mut connection).unwrap();
    assert_eq!(kept, Vec::<redis::Value>::new());
    assert_eq!(connection.sent, pipeline.get_packed_pipeline());
}

#[test]
fn a_read_over_a_connection_fetches_the_latest_payload() {
    let id: Vec<u8> = vec![5, 0, 0, 0, 0, 0, 0, 0, b'k'];
    let mut connection = ScriptedConnection {
        sent: Vec::new(),
        replies: vec![
            redis::Value::Array(vec![redis::Value::BulkString(id.clone())]),
            redis::Value::BulkString(b"payload".to_vec()),
        ],
    };
    let latest: Vec<Vec<u8>> = latest_query(b"k").query(&mut connection).unwrap();
    let fetch = versioned_store::engine::resolve_latest(latest).unwrap();
    assert_eq!(fetch, id);
    let reply: Option<Vec<u8>> = payload_query(&fetch).query(&mut connection).unwrap();
    assert_eq!(
        versioned_store::engine::payload_from_reply(reply),
        Ok(b"payload".to_vec())
    );
    let mut expected = latest_query(b"k").get_packed_command();
    expected.extend(payload_query(&id).get_packed_command());
    assert_eq!(connection.sent, expected);
}

#[test]
fn a_read_over_a_connection_reports_a_missing_payload() {
    let mut connection = ScriptedConnection {
        sent: Vec::new(),
        replies: vec![redis::Value::Nil],
    };
    let reply: Option<Vec<u8>> = payload_query(b"gone").query(&mut connection).unwrap();
    assert_eq!(
        versioned_store::engine::payload_from_reply(reply),
        Err(versioned_store::db::StoreError::DataIntegrityViolation)
    );
}

#[test]
fn block_data_over_a_connection_is_flattened() {
    let mut connection = ScriptedConnection {
        sent: Vec::new(),
        replies: vec![redis::Value::Array(vec![
            redis::Value::BulkString(b"ab".to_vec()),
            redis::Value::BulkString(b"cd".to_vec()),
            redis::Value::BulkString(b"ef".to_vec()),
        ])],
    };
    let chunks: Vec<Vec<u8>> = block_data_query().query(&mut connection).unwrap();
    assert_eq!(versioned_store::engine::flatten_chunks(&chunks), b"abcdef".to_vec());
}
