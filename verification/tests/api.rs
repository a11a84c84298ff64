use gateway::api::{
    build_preamble, end_of_stream, health, list_models, respond, stream_chunk, user_prompt, LightOutcome, Message,
    BAD_GATEWAY, BAD_REQUEST, GATEWAY_TIMEOUT,
};
use gateway::ident::{bytes_of, completion_id, rand_bytes, uuid_from, uuid_v4};

fn message(role: &str, content: Option<&str>) -> Message {
    Message { role: role.to_string(), content: content.map(|c| c.to_string()) }
}

#[test]
fn last_message_of_the_user_is_the_prompt() {
    let messages = [
        message("user", Some("first")),
        message("user", Some("  second \n")),
        message("assistant", Some("third")),
    ];
    assert_eq!(user_prompt(&messages), Ok("second".to_string()));
}

#[test]
fn request_without_prompt_is_bad() {
    assert_eq!(user_prompt(&[]), Err(BAD_REQUEST));
    assert_eq!(user_prompt(&[message("system", Some("x"))]), Err(400));
    assert_eq!(user_prompt(&[message("user", Some("x")), message("user", None)]), Err(400));
    assert_eq!(user_prompt(&[message("user", Some(" \t\n"))]), Err(400));
}

#[test]
fn history_joins_the_preamble() {
    let messages = [
        message("system", Some("rules")),
        message("user", Some("hi")),
        message("assistant", None),
        message("assistant", Some("hello")),
    ];
    assert_eq!(
        build_preamble("base".to_string(), &messages),
        "base\n\n## Conversation History\n[user]: hi\n[assistant]: hello"
    );
    assert_eq!(build_preamble("base".to_string(), &messages[..1]), "base");
    assert_eq!(build_preamble("base".to_string(), &[]), "base");
}

#[test]
fn tokens_become_chunks() {
    let c = stream_chunk("id", 7, "m", Ok("tok".to_string()));
    assert_eq!(c.id, "id");
    assert_eq!(c.object, "chat.completion.chunk");
    assert_eq!(c.created, 7);
    assert_eq!(c.model, "m");
    assert_eq!(c.choices.len(), 1);
    assert_eq!(c.choices[0].index, 0);
    assert_eq!(c.choices[0].delta.content, Some("tok".to_string()));
    assert_eq!(c.choices[0].finish_reason, None);
}

#[test]
fn error_ends_the_stream() {
    let c = stream_chunk("id", 7, "m", Err("broken".to_string()));
    assert_eq!(c.choices[0].delta.content, Some("\n\n[Error: broken]".to_string()));
    assert_eq!(c.choices[0].finish_reason, Some("stop".to_string()));
    assert_eq!(end_of_stream(), "[DONE]");
}

#[test]
fn answer_in_one_piece() {
    let r = match respond("id", 7, "m", LightOutcome::Answered("hello".to_string())) {
        Ok(r) => r,
        Err(status) => panic!("status {status}"),
    };
    assert_eq!(r.object, "chat.completion");
    assert_eq!(r.choices[0].message.role, "assistant");
    assert_eq!(r.choices[0].message.content, "hello");
    assert_eq!(r.choices[0].finish_reason, "stop");
    assert_eq!(respond("id", 7, "m", LightOutcome::Failed).err(), Some(BAD_GATEWAY));
    assert_eq!(respond("id", 7, "m", LightOutcome::TimedOut).err(), Some(GATEWAY_TIMEOUT));
    assert_eq!((BAD_GATEWAY, GATEWAY_TIMEOUT), (502, 504));
}

#[test]
fn one_model_is_offered() {
    let r = list_models();
    assert_eq!(r.object, "list");
    assert_eq!(r.data.len(), 1);
    assert_eq!(r.data[0].id, "angelos");
    assert_eq!(r.data[0].object, "model");
    assert_eq!(r.data[0].created, 0);
    assert_eq!(r.data[0].owned_by, "angelos");
    assert_eq!(health(), "OK");
}

#[test]
fn bytes_in_the_form_of_a_uuid() {
    let bytes: Vec<u8> = (0u8..16).map(|i| i * 17).collect();
    assert_eq!(uuid_from(&bytes), "00112233-4455-6677-8899-aabbccddeeff");
    assert_eq!(uuid_from(&Vec::new()), "");
    let mut other = bytes.clone();
    other[15] = 0;
    assert_ne!(uuid_from(&bytes), uuid_from(&other));
    assert_eq!(completion_id("u"), "chatcmpl-u");
}

#[test]
fn random_identifiers_differ() {
    assert_eq!(rand_bytes(0).len(), 0);
    assert_eq!(rand_bytes(5).len(), 5);
    assert_eq!(rand_bytes(16).len(), 16);
    let a = uuid_v4();
    let b = uuid_v4();
    assert_ne!(a, b);
    assert_eq!(a.len(), 36);
    for (i, c) in a.chars().enumerate() {
        assert_eq!(c == '-', i == 8 || i == 13 || i == 18 || i == 23);
        assert!(c == '-' || c.is_ascii_digit() || ('a'..='f').contains(&c));
    }
    // Not all bytes are the same.
    assert!(rand_bytes(64).iter().any(|x| *x != rand_bytes(1)[0]));
}

#[test]
fn numbers_give_their_bytes_lowest_first() {
    let numbers = vec![0x0807_0605_0403_0201u64, 0xff00_0000_0000_00aa];
    let all: Vec<u8> = numbers.iter().flat_map(|n| n.to_le_bytes()).collect();
    assert_eq!(bytes_of(&numbers, 16), all);
    assert_eq!(bytes_of(&numbers, 10), vec![1, 2, 3, 4, 5, 6, 7, 8, 0xaa, 0]);
    assert_eq!(bytes_of(&numbers, 0), Vec::<u8>::new());
    assert_eq!(bytes_of(&Vec::new(), 0), Vec::<u8>::new());
}
