use pngme::args::{Cli, Commands, DecodeArgs, EncodeArgs, PrintArgs, RemoveArgs};
use pngme::commands::{decode, encode, get_chunk_types, remove};
use pngme::error::PngError;
use std::path::PathBuf;

const SIGNATURE: [u8; 8] = [137, 80, 78, 71, 13, 10, 26, 10];

fn encode_args(chunk_type: &str, message: &str) -> EncodeArgs {
    EncodeArgs {
        file_path: PathBuf::from("in.png"),
        chunk_type: chunk_type.to_string(),
        message: message.to_string(),
        output_file: None,
    }
}

fn decode_args(chunk_type: &str) -> DecodeArgs {
    DecodeArgs { file_path: PathBuf::from("in.png"), chunk_type: chunk_type.to_string() }
}

fn remove_args(chunk_type: &str) -> RemoveArgs {
    RemoveArgs { file_path: PathBuf::from("in.png"), chunk_type: chunk_type.to_string() }
}

fn print_args() -> PrintArgs {
    PrintArgs { file_path: PathBuf::from("in.png") }
}

#[test]
fn encode_then_decode() {
    let out = encode(&SIGNATURE, &encode_args("ruSt", "hello world")).unwrap();
    assert_eq!(decode(&out, &decode_args("ruSt")).unwrap(), "hello world");
}

#[test]
fn encode_appends_exact_bytes() {
    let out = encode(&SIGNATURE, &encode_args("ruSt", "hello world")).unwrap();
    let mut expected = SIGNATURE.to_vec();
    expected.extend_from_slice(&[
        0, 0, 0, 11, 114, 117, 83, 116, 104, 101, 108, 108, 111, 32, 119, 111, 114, 108, 100, 226,
        4, 244, 175,
    ]);
    assert_eq!(out, expected);
}

#[test]
fn encode_checks_the_buffer_first_then_the_type() {
    assert_eq!(encode(&[1, 2, 3], &encode_args("ru1t", "x")), Err(PngError::SignatureMismatch));
    assert_eq!(encode(&SIGNATURE, &encode_args("ru1t", "x")), Err(PngError::MalformedTag));
    assert_eq!(encode(&SIGNATURE, &encode_args("ruStx", "x")), Err(PngError::MalformedTag));
}

#[test]
fn decode_takes_the_first_of_two() {
    let a = encode(&SIGNATURE, &encode_args("ruSt", "first")).unwrap();
    let b = encode(&a, &encode_args("miDl", "between")).unwrap();
    let c = encode(&b, &encode_args("ruSt", "second")).unwrap();
    assert_eq!(decode(&c, &decode_args("ruSt")).unwrap(), "first");
    assert_eq!(decode(&c, &decode_args("miDl")).unwrap(), "between");
    assert_eq!(get_chunk_types(&c, &print_args()).unwrap(), vec!["ruSt", "miDl", "ruSt"]);
}

#[test]
fn decode_reports_a_missing_type() {
    let a = encode(&SIGNATURE, &encode_args("ruSt", "first")).unwrap();
    assert_eq!(decode(&a, &decode_args("miDl")), Err(PngError::TagNotFound));
    assert_eq!(decode(&SIGNATURE, &decode_args("ruSt")), Err(PngError::TagNotFound));
    assert_eq!(decode(&a[..a.len() - 2], &decode_args("ruSt")), Err(PngError::TruncatedRecord));
}

#[test]
fn remove_undoes_encode() {
    let a = encode(&SIGNATURE, &encode_args("ruSt", "first")).unwrap();
    let b = encode(&a, &encode_args("miDl", "between")).unwrap();
    assert_eq!(remove(&b, &remove_args("miDl")).unwrap(), a);
    assert_eq!(remove(&a, &remove_args("ruSt")).unwrap(), SIGNATURE.to_vec());
}

#[test]
fn remove_takes_only_the_first_match() {
    let a = encode(&SIGNATURE, &encode_args("ruSt", "first")).unwrap();
    let b = encode(&a, &encode_args("miDl", "between")).unwrap();
    let c = encode(&b, &encode_args("ruSt", "second")).unwrap();
    let d = remove(&c, &remove_args("ruSt")).unwrap();
    assert_eq!(get_chunk_types(&d, &print_args()).unwrap(), vec!["miDl", "ruSt"]);
    assert_eq!(decode(&d, &decode_args("ruSt")).unwrap(), "second");
}

#[test]
fn remove_reports_a_missing_type() {
    let a = encode(&SIGNATURE, &encode_args("ruSt", "first")).unwrap();
    assert_eq!(remove(&a, &remove_args("miDl")), Err(PngError::TagNotFound));
    assert_eq!(remove(&[0; 20], &remove_args("miDl")), Err(PngError::SignatureMismatch));
}

#[test]
fn list_of_an_empty_buffer() {
    assert_eq!(get_chunk_types(&SIGNATURE, &print_args()).unwrap(), Vec::<String>::new());
    assert_eq!(get_chunk_types(&[], &print_args()), Err(PngError::SignatureMismatch));
}

#[test]
fn output_path_prefers_the_output_file() {
    let mut args = encode_args("ruSt", "x");
    assert_eq!(args.output_path(), &PathBuf::from("in.png"));
    args.output_file = Some(PathBuf::from("out.png"));
    assert_eq!(args.output_path(), &PathBuf::from("out.png"));
}

#[test]
fn requests_hold_what_they_were_given() {
    let cli = Cli { command: Commands::Print(PrintArgs { file_path: PathBuf::from("p.png") }) };
    match cli.command {
        Commands::Print(a) => assert_eq!(a.file_path, PathBuf::from("p.png")),
        _ => panic!("another command came back"),
    }
}

#[test]
fn error_messages_differ() {
    let all = [
        PngError::MalformedTag,
        PngError::TruncatedRecord,
        PngError::ChecksumMismatch,
        PngError::SignatureMismatch,
        PngError::TagNotFound,
        PngError::NonTextPayload,
    ];
    for (i, a) in all.iter().enumerate() {
        for (j, b) in all.iter().enumerate() {
            assert_eq!(a.message() == b.message(), i == j);
        }
    }
    assert_eq!(PngError::SignatureMismatch.message(), "invalid signature");
}
