use semantic_search::batch::{batch_size, plan_batches};
use semantic_search::client::{Client, API_BASE};
use semantic_search::cost::{concat_bodies, cost_of_tokens, get_query_cost_units, TOKEN_COST_UNITS};
use semantic_search::embedding::{
    classify_response, is_success_status, ApiError, EmbeddingData, EmbeddingInput,
    EmbeddingResponse, ProviderBody,
};
use semantic_search::error::SemanticSearchError;
use semantic_search::generate::{GenerateEmbeddingsCommand, Rebuild, RebuildStep};
use semantic_search::rank::{get_suggestions, query_embedding, rank_order, QueryCommand, Suggestions};
use semantic_search::store::{
    encode_vector, parse_store, record_fields, record_from_fields, split_vector, store_text,
    EmbeddingRecord,
};
use semantic_search::table::{document_bodies, parse_documents, Document};

fn strings(items: &[&str]) -> Vec<String> {
    items.iter().map(|s| s.to_string()).collect()
}

fn input_table(n: usize) -> String {
    let mut s = String::from("name,header,body\n");
    for i in 0..n {
        s.push_str(&format!("note{i}.md,Header {i},body text {i}\n"));
    }
    s
}

fn response_of(n: usize, tag: usize) -> EmbeddingResponse {
    EmbeddingResponse {
        data: (0..n)
            .map(|i| EmbeddingData { embedding: strings(&[&format!("{tag}.{i}"), "0.5"]) })
            .collect(),
    }
}

fn api_error() -> ApiError {
    ApiError {
        message: "Rate limit reached".to_string(),
        error_type: "requests".to_string(),
        param: None,
        code: Some("rate_limit_exceeded".to_string()),
    }
}

#[test]
fn batch_size_rounds_up() {
    assert_eq!(batch_size(7, 3), 3);
    assert_eq!(batch_size(6, 3), 2);
    assert_eq!(batch_size(0, 4), 0);
    assert_eq!(batch_size(1, 4), 1);
}

#[test]
fn batches_cover_every_record_once() {
    assert_eq!(plan_batches(5, 2), vec![(0, 3), (3, 5)]);
    assert_eq!(plan_batches(10, 3), vec![(0, 4), (4, 8), (8, 10)]);
    assert_eq!(plan_batches(7, 1), vec![(0, 7)]);
    for n in 0..40usize {
        for b in 1..9u32 {
            let plan = plan_batches(n, b);
            let mut next = 0;
            for &(s, e) in &plan {
                assert_eq!(s, next);
                assert!(e > s);
                next = e;
            }
            assert_eq!(next, n);
            assert!(plan.len() <= b as usize);
        }
    }
}

#[test]
fn no_batches_for_no_records() {
    assert!(plan_batches(0, 3).is_empty());
}

#[test]
fn batches_stop_when_records_run_out() {
    assert_eq!(plan_batches(5, 4), vec![(0, 2), (2, 4), (4, 5)]);
}

#[test]
fn last_batch_absorbs_remainder() {
    assert_eq!(plan_batches(9, 3), vec![(0, 3), (3, 6), (6, 9)]);
    assert_eq!(plan_batches(11, 4), vec![(0, 3), (3, 6), (6, 9), (9, 11)]);
}

#[test]
fn documents_are_read_trimmed() {
    let docs = parse_documents("name,header,body\n a.md , Intro ,  some body \n").unwrap();
    assert_eq!(
        docs,
        vec![Document {
            name: "a.md".to_string(),
            header: "Intro".to_string(),
            body: "some body".to_string()
        }]
    );
    assert_eq!(document_bodies(&docs), strings(&["some body"]));
}

#[test]
fn short_row_is_missing_column() {
    let r = parse_documents("a,b\nx,y\n");
    assert_eq!(r, Err(SemanticSearchError::MissingColumn { row: 0, expected: 3, found: 2 }));
}

#[test]
fn ragged_table_is_malformed() {
    let r = parse_documents("a,b,c\nx,y,z\nonly,two\n");
    assert!(matches!(r, Err(SemanticSearchError::MalformedTable(_))));
}

#[test]
fn zero_batches_is_refused() {
    let cmd = GenerateEmbeddingsCommand::new("key".to_string(), 0);
    assert_eq!(cmd.start_run(&input_table(3)).unwrap_err(), SemanticSearchError::InvalidBatchCount);
}

#[test]
fn positional_correlation_across_batches() {
    let cmd = GenerateEmbeddingsCommand::new("key".to_string(), 2);
    let mut run = cmd.start_run(&input_table(5)).unwrap();
    let mut all = Vec::new();
    let mut tag = 0;
    while let Some(req) = run.next_request(cmd.client()) {
        assert_eq!(req.model, "text-embedding-ada-002");
        let texts = match &req.input {
            EmbeddingInput::StringArray(v) => v.clone(),
            EmbeddingInput::String(_) => panic!("batch requests carry an array"),
        };
        let start = run.processed();
        for (i, t) in texts.iter().enumerate() {
            assert_eq!(t, &format!("body text {}", start + i));
        }
        let recs = run.accept_response(&response_of(texts.len(), tag)).unwrap();
        for (i, r) in recs.iter().enumerate() {
            assert_eq!(r.vector[0], format!("{tag}.{i}"));
        }
        all.extend(recs);
        tag += 1;
    }
    assert_eq!(tag, 2);
    assert_eq!(all.len(), 5);
    for (i, r) in all.iter().enumerate() {
        assert_eq!(r.name, format!("note{i}.md"));
        assert_eq!(r.header, format!("Header {i}"));
    }
    assert!(run.is_finished());
    assert_eq!(
        run.accept_response(&response_of(1, 9)).unwrap_err(),
        SemanticSearchError::RunFinished
    );
}

#[test]
fn failed_batch_keeps_earlier_batches_only() {
    let cmd = GenerateEmbeddingsCommand::new("key".to_string(), 3);
    let mut run = cmd.start_run(&input_table(6)).unwrap();
    let first = run.accept_response(&response_of(2, 0)).unwrap();
    assert_eq!(first.len(), 2);
    assert_eq!(run.processed(), 2);
    let err = run.accept_response(&response_of(1, 1)).unwrap_err();
    assert_eq!(err, SemanticSearchError::MissingEmbedding { index: 1 });
    assert_eq!(run.processed(), 2);
    assert!(!run.is_finished());
}

#[test]
fn vector_field_round_trip() {
    let v = strings(&["0.1", "-2.5", "3e-7"]);
    let field = encode_vector(&v);
    assert_eq!(field, "0.1,-2.5,3e-7");
    assert_eq!(split_vector(&field), v);
    assert_eq!(split_vector(""), strings(&[""]));
    assert_eq!(split_vector("1,,2"), strings(&["1", "", "2"]));
}

#[test]
fn store_round_trip() {
    let records = vec![
        EmbeddingRecord {
            name: "a.md".to_string(),
            header: "Intro".to_string(),
            vector: strings(&["0.25", "-1"]),
        },
        EmbeddingRecord {
            name: "b.md".to_string(),
            header: "Usage".to_string(),
            vector: strings(&["1.5", "2", "3"]),
        },
    ];
    let text = store_text(&records).unwrap();
    assert_eq!(text, "a.md,Intro,\"0.25,-1\"\nb.md,Usage,\"1.5,2,3\"\n");
    assert_eq!(parse_store(&text).unwrap(), records);
    assert_eq!(store_text(&Vec::new()).unwrap(), "");
}

#[test]
fn record_fields_and_back() {
    let rec = EmbeddingRecord {
        name: "n".to_string(),
        header: "h".to_string(),
        vector: strings(&["1", "2"]),
    };
    let fields = record_fields(&rec);
    assert_eq!(fields, strings(&["n", "h", "1,2"]));
    assert_eq!(record_from_fields(&fields, 0).unwrap(), rec);
}

#[test]
fn empty_component_is_malformed_vector() {
    let r = record_from_fields(&strings(&["n", "h", "1,,2"]), 4);
    assert_eq!(r, Err(SemanticSearchError::MalformedVector { row: 4 }));
    let r = parse_store("a,b,\"1,\"\n");
    assert_eq!(r, Err(SemanticSearchError::MalformedVector { row: 0 }));
}

#[test]
fn short_store_row_is_missing_column() {
    let r = record_from_fields(&strings(&["n", "h"]), 2);
    assert_eq!(r, Err(SemanticSearchError::MissingColumn { row: 2, expected: 3, found: 2 }));
}

fn record(name: &str) -> EmbeddingRecord {
    EmbeddingRecord { name: name.to_string(), header: format!("{name} header"), vector: strings(&["1"]) }
}

#[test]
fn ranking_orders_by_score() {
    assert_eq!(rank_order(&vec![5, 9, 1, 9]), vec![1, 3, 0, 2]);
    assert_eq!(rank_order(&vec![]), Vec::<usize>::new());
}

#[test]
fn top_k_of_three_returns_three() {
    let records = vec![record("a"), record("b"), record("c")];
    let out = get_suggestions(&records, &vec![10, 30, 20], 10);
    assert_eq!(
        out,
        vec![
            Suggestions { name: "b".to_string(), header: "b header".to_string() },
            Suggestions { name: "c".to_string(), header: "c header".to_string() },
            Suggestions { name: "a".to_string(), header: "a header".to_string() },
        ]
    );
}

#[test]
fn top_k_truncates() {
    let records: Vec<EmbeddingRecord> = (0..12).map(|i| record(&format!("r{i}"))).collect();
    let scores: Vec<u32> = (0..12).collect();
    let out = get_suggestions(&records, &scores, 10);
    assert_eq!(out.len(), 10);
    assert_eq!(out[0].name, "r11");
    assert_eq!(out[9].name, "r2");
    assert!(get_suggestions(&records, &scores, 0).is_empty());
}

#[test]
fn query_embedding_takes_the_first() {
    let r = query_embedding(&response_of(2, 7)).unwrap();
    assert_eq!(r, strings(&["7.0", "0.5"]));
    assert_eq!(
        query_embedding(&EmbeddingResponse { data: vec![] }),
        Err(SemanticSearchError::EmptyEmbeddingResponse)
    );
}

#[test]
fn cost_is_deterministic_and_exact() {
    let a = get_query_cost_units("hello world").unwrap();
    let b = get_query_cost_units("hello world").unwrap();
    assert_eq!(a, b);
    assert_eq!(a, 8);
    assert_eq!(get_query_cost_units("").unwrap(), 0);
}

#[test]
fn input_cost_uses_concatenated_bodies() {
    let cmd = GenerateEmbeddingsCommand::new("key".to_string(), 1);
    let input = "name,header,body\na,h,hello\nb,h, world\n";
    let docs = parse_documents(input).unwrap();
    assert_eq!(concat_bodies(&docs), "helloworld");
    let expected = get_query_cost_units("helloworld").unwrap();
    assert_eq!(cmd.get_input_cost_estimate(input).unwrap(), expected);
    assert!(expected > 0);
}

#[test]
fn rate_limit_is_an_api_error() {
    let r = classify_response(429, ProviderBody::Error(api_error()));
    assert_eq!(r, Err(SemanticSearchError::ApiError(api_error())));
}

#[test]
fn success_yields_embeddings() {
    let resp = response_of(1, 0);
    assert_eq!(classify_response(200, ProviderBody::Embeddings(resp.clone())), Ok(resp));
    assert!(is_success_status(204));
    assert!(!is_success_status(301));
    assert!(!is_success_status(199));
}

#[test]
fn undecodable_body_is_deserialize_error() {
    let r = classify_response(500, ProviderBody::Undecodable("eof".to_string()));
    assert_eq!(r, Err(SemanticSearchError::JsonDeserialize("eof".to_string())));
    let r = classify_response(200, ProviderBody::Error(api_error()));
    assert!(matches!(r, Err(SemanticSearchError::JsonDeserialize(_))));
}

#[test]
fn client_defaults_and_headers() {
    let c = Client::new("sk".to_string());
    assert_eq!(c.api_key(), "sk");
    assert_eq!(c.api_base(), API_BASE);
    assert_eq!(c.embeddings_url(), format!("{API_BASE}/embeddings"));
    assert!(c.headers().is_empty());
    assert_eq!(c.authorization_header(), ("Authorization".to_string(), "Bearer sk".to_string()));
    let c = c.with_organization("org-1".to_string()).with_api_base("http://x/v1".to_string());
    assert_eq!(c.embeddings_url(), "http://x/v1/embeddings");
    assert_eq!(c.headers(), vec![("OpenAI-Organization".to_string(), "org-1".to_string())]);
    let req = c.create_embedding_request(EmbeddingInput::String("q".to_string()));
    assert_eq!(req.input, EmbeddingInput::String("q".to_string()));
    assert_eq!(req.user, None);
}

#[test]
fn token_cost_formula() {
    assert_eq!(TOKEN_COST_UNITS, 4);
    assert_eq!(cost_of_tokens(0), 0);
    assert_eq!(cost_of_tokens(1000), 4000);
    assert_eq!(cost_of_tokens(usize::MAX), usize::MAX as u128 * 4);
}

#[test]
fn ragged_store_is_malformed() {
    let r = parse_store("a,b,\"1\"\nc,d\n");
    assert!(matches!(r, Err(SemanticSearchError::MalformedTable(_))));
}

#[test]
fn start_run_reports_short_row() {
    let cmd = GenerateEmbeddingsCommand::new("key".to_string(), 2);
    let r = cmd.start_run("a,b\nx,y\n");
    assert_eq!(r.unwrap_err(), SemanticSearchError::MissingColumn { row: 0, expected: 3, found: 2 });
    let r = cmd.get_input_cost_estimate("a,b\nx,y\n");
    assert_eq!(r, Err(SemanticSearchError::MissingColumn { row: 0, expected: 3, found: 2 }));
}

#[test]
fn empty_input_runs_no_batches() {
    let cmd = GenerateEmbeddingsCommand::new("key".to_string(), 3);
    let run = cmd.start_run("name,header,body\n").unwrap();
    assert!(run.is_finished());
    assert!(run.next_request(cmd.client()).is_none());
    assert_eq!(run.processed(), 0);
}

#[test]
fn rebuild_deletes_before_writing() {
    let cmd = GenerateEmbeddingsCommand::new("key".to_string(), 3);
    let mut rebuild = Rebuild::new(cmd);
    let mut store = String::from("old.md,Old,\"9\"\n");
    let mut log = Vec::new();
    let mut batch = 0;
    loop {
        match rebuild.next_step() {
            RebuildStep::DeleteStore => {
                log.push("delete");
                store.clear();
                rebuild.store_deleted();
            }
            RebuildStep::ReadInput => {
                log.push("read");
                rebuild.input_read(&input_table(6)).unwrap();
            }
            RebuildStep::Submit(req) => {
                log.push("submit");
                let n = match &req.input {
                    EmbeddingInput::StringArray(v) => v.len(),
                    EmbeddingInput::String(_) => 1,
                };
                let reply = if batch == 1 { response_of(n - 1, batch) } else { response_of(n, batch) };
                batch += 1;
                if rebuild.replied(&reply).is_err() {
                    log.push("failed");
                }
            }
            RebuildStep::Append(text) => {
                log.push("append");
                store.push_str(&text);
                rebuild.appended();
            }
            RebuildStep::Finished => panic!("the second batch fails"),
            RebuildStep::Stopped => break,
        }
    }
    assert_eq!(log, vec!["delete", "read", "submit", "append", "submit", "failed"]);
    let kept = parse_store(&store).unwrap();
    assert_eq!(kept.len(), 2);
    assert_eq!(kept[0].name, "note0.md");
    assert_eq!(kept[1].name, "note1.md");
}

#[test]
fn rebuild_of_empty_input_writes_an_empty_store() {
    let mut rebuild = Rebuild::new(GenerateEmbeddingsCommand::new("key".to_string(), 2));
    assert_eq!(rebuild.next_step(), RebuildStep::DeleteStore);
    rebuild.store_deleted();
    assert_eq!(rebuild.next_step(), RebuildStep::ReadInput);
    rebuild.input_read("name,header,body\n").unwrap();
    assert_eq!(rebuild.next_step(), RebuildStep::Append(String::new()));
    rebuild.appended();
    assert_eq!(rebuild.next_step(), RebuildStep::Finished);
}

#[test]
fn query_request_has_a_single_input() {
    let q = QueryCommand::new(Client::new("sk".to_string()));
    let req = q.query_request("how to search".to_string());
    assert_eq!(req.model, "text-embedding-ada-002");
    assert_eq!(req.input, EmbeddingInput::String("how to search".to_string()));
    assert_eq!(q.client().api_key(), "sk");
}

#[test]
fn ranking_follows_score_order_only() {
    let records = vec![record("a"), record("b"), record("c")];
    let first = get_suggestions(&records, &vec![10, 30, 20], 10);
    let rescaled = get_suggestions(&records, &vec![1, 3_000_000, 2_000], 10);
    assert_eq!(first, rescaled);
}

#[test]
fn rebuild_stores_rows_by_global_position() {
    let mut rebuild = Rebuild::new(GenerateEmbeddingsCommand::new("key".to_string(), 2));
    let mut store = String::new();
    let mut sent = Vec::new();
    loop {
        match rebuild.next_step() {
            RebuildStep::DeleteStore => rebuild.store_deleted(),
            RebuildStep::ReadInput => rebuild.input_read(&input_table(5)).unwrap(),
            RebuildStep::Submit(req) => {
                let texts = match &req.input {
                    EmbeddingInput::StringArray(v) => v.clone(),
                    EmbeddingInput::String(s) => vec![s.clone()],
                };
                let data = texts
                    .iter()
                    .map(|t| EmbeddingData {
                        embedding: vec![t.trim_start_matches("body text ").to_string()],
                    })
                    .collect();
                sent.push(texts);
                rebuild.replied(&EmbeddingResponse { data }).unwrap();
            }
            RebuildStep::Append(text) => {
                store.push_str(&text);
                rebuild.appended();
            }
            RebuildStep::Finished => break,
            RebuildStep::Stopped => panic!("every batch succeeds"),
        }
    }
    assert_eq!(sent.len(), 2);
    assert_eq!(sent[0].len(), 3);
    assert_eq!(sent[1].len(), 2);
    let rows = parse_store(&store).unwrap();
    assert_eq!(rows.len(), 5);
    for (i, r) in rows.iter().enumerate() {
        assert_eq!(r.name, format!("note{i}.md"));
        assert_eq!(r.header, format!("Header {i}"));
        assert_eq!(r.vector, vec![i.to_string()]);
    }
}
