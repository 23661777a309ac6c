use serie_usb::args::{serie_via_usb, Args, DisplayingMode, Operation, UsageError};

fn options(lecture: bool, ecriture: bool, svg: bool, fichier: Option<&str>) -> Args {
    Args {
        lecture,
        ecriture,
        svg,
        affichage: DisplayingMode::Hexadecimal,
        fichier: fichier.map(|f| f.to_string()),
        retour: Some(16),
    }
}

#[test]
fn mode_names() {
    assert_eq!(DisplayingMode::Hexadecimal.name(), "hexadecimal");
    assert_eq!(DisplayingMode::Decimal.name(), "decimal");
    assert_eq!(DisplayingMode::Binaire.name(), "binaire");
    assert_eq!(DisplayingMode::Ascii.name(), "ascii");
}

#[test]
fn default_mode_is_ascii() {
    assert_eq!(DisplayingMode::default(), DisplayingMode::Ascii);
}

#[test]
fn modes_are_ordered_as_declared() {
    assert!(DisplayingMode::Hexadecimal < DisplayingMode::Decimal);
    assert!(DisplayingMode::Decimal < DisplayingMode::Binaire);
    assert!(DisplayingMode::Binaire < DisplayingMode::Ascii);
}

#[test]
fn reading_an_image() {
    assert_eq!(
        serie_via_usb(options(true, false, true, Some("out.svg"))),
        Ok(Operation::ReadSvg { sortie: Some("out.svg".to_string()) })
    );
    assert_eq!(
        serie_via_usb(options(true, false, true, None)),
        Ok(Operation::ReadSvg { sortie: None })
    );
}

#[test]
fn writing_an_image_needs_a_file() {
    assert_eq!(
        serie_via_usb(options(false, true, true, Some("in.svg"))),
        Ok(Operation::WriteSvg { fichier: "in.svg".to_string() })
    );
    assert_eq!(serie_via_usb(options(false, true, true, None)), Err(UsageError::MissingFile));
}

#[test]
fn reading_plain_bytes() {
    assert_eq!(
        serie_via_usb(options(true, false, false, Some("ignored"))),
        Ok(Operation::Read { affichage: DisplayingMode::Hexadecimal, retour: Some(16) })
    );
}

#[test]
fn writing_plain_bytes_needs_a_file() {
    assert_eq!(
        serie_via_usb(options(false, true, false, Some("data.bin"))),
        Ok(Operation::Write { fichier: "data.bin".to_string() })
    );
    assert_eq!(serie_via_usb(options(false, true, false, None)), Err(UsageError::MissingFile));
}

#[test]
fn reading_wins_over_writing() {
    assert_eq!(
        serie_via_usb(options(true, true, true, None)),
        Ok(Operation::ReadSvg { sortie: None })
    );
    assert_eq!(
        serie_via_usb(options(true, true, false, None)),
        Ok(Operation::Read { affichage: DisplayingMode::Hexadecimal, retour: Some(16) })
    );
}

#[test]
fn neither_direction_is_idle() {
    assert_eq!(serie_via_usb(options(false, false, false, None)), Ok(Operation::Idle));
    assert_eq!(serie_via_usb(options(false, false, true, Some("x"))), Ok(Operation::Idle));
}

#[test]
fn missing_file_message() {
    assert_eq!(UsageError::MissingFile.message(), "Fichier non fourni");
}
