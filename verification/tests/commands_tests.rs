use pngme::chunk::Chunk;
use pngme::chunk_type::ChunkType;
use pngme::commands;
use pngme::png::Png;
use pngme::Error;
use std::str::FromStr;

fn container() -> Png {
    Png::from_chunks(vec![
        Chunk::new(ChunkType::from_str("FrSt").unwrap(), b"I am the first chunk".to_vec()),
        Chunk::new(ChunkType::from_str("ruSt").unwrap(), b"one".to_vec()),
        Chunk::new(ChunkType::from_str("ruSt").unwrap(), b"two".to_vec()),
    ])
}

#[test]
fn command_encode_appends_the_message() {
    let mut png = container();
    assert_eq!(commands::encode(&mut png, "TeSt", "Message"), Ok(()));
    assert_eq!(png.chunks().len(), 4);
    let chunk = &png.chunks()[3];
    assert_eq!(chunk.chunk_type().to_string(), "TeSt");
    assert_eq!(chunk.data(), b"Message");
    assert_eq!(chunk.length(), 7);
    assert_eq!(chunk.crc(), 327672890);
}

#[test]
fn command_encode_counts_bytes_not_characters() {
    let mut png = container();
    assert_eq!(commands::encode(&mut png, "TeSt", "gr\u{fc}n"), Ok(()));
    assert_eq!(png.chunks()[3].length(), 5);
    assert_eq!(png.chunks()[3].data(), "gr\u{fc}n".as_bytes());
}

#[test]
fn command_encode_refuses_a_bad_type() {
    let mut png = container();
    let before = png.as_bytes();
    assert_eq!(commands::encode(&mut png, "Te1t", "Message"), Err(Error::InvalidCharacter));
    assert_eq!(commands::encode(&mut png, "", "Message"), Err(Error::InvalidLength));
    assert_eq!(png.as_bytes(), before);
}

#[test]
fn command_decode_describes_the_first_match() {
    let png = container();
    assert_eq!(
        commands::decode(&png, "ruSt"),
        Some(String::from("length: 3,type ruSt, message:one, crc: 2746703677"))
    );
    assert_eq!(commands::decode(&png, "TeSt"), None);
}

#[test]
fn command_remove_takes_all_of_the_type() {
    let mut png = container();
    assert_eq!(commands::remove(&mut png, "ruSt"), 2);
    assert_eq!(png.chunks().len(), 1);
    assert_eq!(png.chunks()[0].chunk_type().to_string(), "FrSt");
    assert_eq!(commands::remove(&mut png, "ruSt"), 0);
    assert_eq!(png.chunks().len(), 1);
}

#[test]
fn command_print_lists_in_order() {
    let png = container();
    let lines = commands::print(&png);
    assert_eq!(
        lines,
        vec![
            String::from("length: 20,type FrSt, message:I am the first chunk, crc: 920434671"),
            String::from("length: 3,type ruSt, message:one, crc: 2746703677"),
            String::from("length: 3,type ruSt, message:two, crc: 3356578730"),
        ]
    );
    assert_eq!(commands::print(&Png::from_chunks(Vec::new())).len(), 0);
}
