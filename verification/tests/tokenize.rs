use spoodly::{tokenize, LexError, Num, Token};
use spoodly::Token::{
    ArgsClose, ArgsOpen, BinaryOperation, BlockClose, BlockOpen, Identifier, Number, StorageArrow,
};

fn num(n: i64) -> Token {
    Number(Num::from_int(n))
}

#[test]
fn test_tokenize() {
    assert_eq!(
        tokenize("s <- 3").unwrap(),
        [
            BlockOpen,
            BlockOpen,
            Identifier("s".to_string()),
            StorageArrow,
            BlockOpen,
            num(3),
            BlockClose,
            BlockClose,
            BlockClose,
        ]
    );

    assert_eq!(
        tokenize("s<-3").unwrap(),
        [
            BlockOpen,
            BlockOpen,
            Identifier("s".to_string()),
            StorageArrow,
            BlockOpen,
            num(3),
            BlockClose,
            BlockClose,
            BlockClose,
        ]
    );

    assert_eq!(
        tokenize("s <- 3 + 2").unwrap(),
        [
            BlockOpen,
            BlockOpen,
            Identifier("s".to_string()),
            StorageArrow,
            BlockOpen,
            num(3),
            BinaryOperation("+".to_string()),
            num(2),
            BlockClose,
            BlockClose,
            BlockClose,
        ]
    );
    assert_eq!(
        tokenize("s<-3+2").unwrap(),
        [
            BlockOpen,
            BlockOpen,
            Identifier("s".to_string()),
            StorageArrow,
            BlockOpen,
            num(3),
            BinaryOperation("+".to_string()),
            num(2),
            BlockClose,
            BlockClose,
            BlockClose,
        ]
    );

    assert_eq!(
        tokenize(
            "\
            s <- 3
            DISPLAY(s)\
        "
        )
        .unwrap(),
        [
            BlockOpen,
            BlockOpen,
            Identifier("s".to_string()),
            StorageArrow,
            BlockOpen,
            num(3),
            BlockClose,
            BlockClose,
            BlockOpen,
            Identifier("DISPLAY".to_string()),
            ArgsOpen,
            Identifier("s".to_string()),
            ArgsClose,
            BlockClose,
            BlockClose,
        ]
    );

    assert_eq!(
        tokenize(
            "\
            s<-3
            DISPLAY(s)\
        "
        )
        .unwrap(),
        [
            BlockOpen,
            BlockOpen,
            Identifier("s".to_string()),
            StorageArrow,
            BlockOpen,
            num(3),
            BlockClose,
            BlockClose,
            BlockOpen,
            Identifier("DISPLAY".to_string()),
            ArgsOpen,
            Identifier("s".to_string()),
            ArgsClose,
            BlockClose,
            BlockClose,
        ]
    );

    assert_eq!(
        tokenize(
            "\
            s <- 3
            l <- 4
            a <- 1
            s <- a + 5
            l <- a
            a <- a + 3
            DISPLAY(s)
            DISPLAY(l)
            DISPLAY(a)\
        "
        )
        .unwrap(),
        vec![
            BlockOpen,
            BlockOpen,
            Identifier("s".to_string()),
            StorageArrow,
            BlockOpen,
            num(3),
            BlockClose,
            BlockClose,
            BlockOpen,
            Identifier("l".to_string()),
            StorageArrow,
            BlockOpen,
            num(4),
            BlockClose,
            BlockClose,
            BlockOpen,
            Identifier("a".to_string()),
            StorageArrow,
            BlockOpen,
            num(1),
            BlockClose,
            BlockClose,
            BlockOpen,
            Identifier("s".to_string()),
            StorageArrow,
            BlockOpen,
            Identifier("a".to_string()),
            BinaryOperation("+".to_string()),
            num(5),
            BlockClose,
            BlockClose,
            BlockOpen,
            Identifier("l".to_string()),
            StorageArrow,
            BlockOpen,
            Identifier("a".to_string()),
            BlockClose,
            BlockClose,
            BlockOpen,
            Identifier("a".to_string()),
            StorageArrow,
            BlockOpen,
            Identifier("a".to_string()),
            BinaryOperation("+".to_string()),
            num(3),
            BlockClose,
            BlockClose,
            BlockOpen,
            Identifier("DISPLAY".to_string()),
            ArgsOpen,
            Identifier("s".to_string()),
            ArgsClose,
            BlockClose,
            BlockOpen,
            Identifier("DISPLAY".to_string()),
            ArgsOpen,
            Identifier("l".to_string()),
            ArgsClose,
            BlockClose,
            BlockOpen,
            Identifier("DISPLAY".to_string()),
            ArgsOpen,
            Identifier("a".to_string()),
            ArgsClose,
            BlockClose,
            BlockClose,
        ]
    )
}

#[test]
fn unterminated_string_literal_is_fatal() {
    assert_eq!(tokenize("DISPLAY(\"hi)"), Err(LexError::UnterminatedString));
    assert_eq!(tokenize("\"never closed"), Err(LexError::UnterminatedString));
    assert!(tokenize("\"closed\"").is_ok());
}

#[test]
fn unrecognized_characters_are_skipped() {
    assert_eq!(tokenize("3 # ?").unwrap(), [BlockOpen, BlockOpen, num(3), BlockClose, BlockClose]);
}

#[test]
fn number_words_must_fit_the_numeric_type() {
    assert_eq!(
        tokenize("9223372036854775807").unwrap(),
        [BlockOpen, BlockOpen, num(9223372036854775807), BlockClose, BlockClose]
    );
    assert_eq!(
        tokenize("99999999999999999999").unwrap(),
        [
            BlockOpen,
            BlockOpen,
            Identifier("99999999999999999999".to_string()),
            BlockClose,
            BlockClose,
        ]
    );
    assert_eq!(
        tokenize("007").unwrap(),
        [BlockOpen, BlockOpen, num(7), BlockClose, BlockClose]
    );
}
