use pretty_midi_rs::err::{Error, ErrorKind};

#[test]
fn error_is_rendered_with_its_kind_and_cause() {
    assert_eq!(Error::new(ErrorKind::IO, String::from("file not found")).to_string(), "[evalpy err: IO]: file not found");
    assert_eq!(Error::new(ErrorKind::Midly, String::from("not a midi file")).to_string(), "[evalpy err: Midly]: not a midi file");
    assert_eq!(Error::new(ErrorKind::Generic, String::new()).to_string(), "[evalpy err: Generic]: ");
}

#[test]
fn generic_error_holds_its_cause() {
    let error = Error::generic("no such thing");
    assert_eq!(error.kind, ErrorKind::Generic);
    assert_eq!(error.message, "no such thing");
    assert_eq!(error.to_string(), "[evalpy err: Generic]: no such thing");
}
