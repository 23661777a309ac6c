//! What the user asked for, and which operation that calls for.

use vstd::prelude::*;

verus! {

/// How bytes that were read are shown.
#[derive(Copy, Clone, PartialEq, Eq, PartialOrd, Ord, Debug, Structural)]
pub enum DisplayingMode {
    Hexadecimal,
    Decimal,
    Binaire,
    Ascii,
}

/// The name under which a mode is written and shown.
pub open spec fn name_of(mode: DisplayingMode) -> Seq<char> {
    match mode {
        DisplayingMode::Hexadecimal => "hexadecimal"@,
        DisplayingMode::Decimal => "decimal"@,
        DisplayingMode::Binaire => "binaire"@,
        DisplayingMode::Ascii => "ascii"@,
    }
}

impl DisplayingMode {
    /// The name under which the mode is written and shown.
    pub fn name(&self) -> (name: &'static str)
        ensures
            name@ == name_of(*self),
    {
        match self {
            DisplayingMode::Hexadecimal => "hexadecimal",
            DisplayingMode::Decimal => "decimal",
            DisplayingMode::Binaire => "binaire",
            DisplayingMode::Ascii => "ascii",
        }
    }
}

impl Default for DisplayingMode {
    /// Bytes are shown as text unless another mode is asked for.
    fn default() -> (mode: DisplayingMode)
        ensures
            mode == DisplayingMode::Ascii,
    {
        DisplayingMode::Ascii
    }
}

/// The options of one run.
#[derive(Debug, PartialEq, Eq)]
pub struct Args {
    /// Receive bytes from the board.
    pub lecture: bool,
    /// Send bytes to the board; needs a file.
    pub ecriture: bool,
    /// The transfer is a framed image rather than plain bytes.
    pub svg: bool,
    /// How bytes that were read are shown.
    pub affichage: DisplayingMode,
    /// The file to send, or to keep what was received in.
    pub fichier: Option<String>,
    /// Break the line after this many characters shown.
    pub retour: Option<u32>,
}

/// What a run does.
#[derive(Debug, PartialEq, Eq)]
pub enum Operation {
    /// Receive one framed image, and keep it in the file if one is named.
    ReadSvg { sortie: Option<String> },
    /// Send the file as one framed image.
    WriteSvg { fichier: String },
    /// Show the bytes that arrive until interrupted.
    Read { affichage: DisplayingMode, retour: Option<u32> },
    /// Send the file's bytes as they are.
    Write { fichier: String },
    /// Neither direction was asked for: nothing to do.
    Idle,
}

/// Why the options call for no operation.
#[derive(Copy, Clone, PartialEq, Eq, Debug, Structural)]
pub enum UsageError {
    /// Sending was asked for and no file was named.
    MissingFile,
}

/// What is said of a usage error.
pub open spec fn message_of(error: UsageError) -> Seq<char> {
    match error {
        UsageError::MissingFile => "Fichier non fourni"@,
    }
}

impl UsageError {
    /// What to say of the error.
    pub fn message(&self) -> (text: &'static str)
        ensures
            text@ == message_of(*self),
    {
        match self {
            UsageError::MissingFile => "Fichier non fourni",
        }
    }
}

/// The operation that the options call for. Reading wins over writing where
/// both are set, and a framed transfer over a plain one in the same
/// direction. Writing needs a file; reading does not.
pub open spec fn operation_of(args: Args) -> Result<Operation, UsageError> {
    if args.svg && args.lecture {
        Ok(Operation::ReadSvg { sortie: args.fichier })
    } else if args.svg && args.ecriture {
        match args.fichier {
            Some(fichier) => Ok(Operation::WriteSvg { fichier }),
            None => Err(UsageError::MissingFile),
        }
    } else if args.lecture {
        Ok(Operation::Read { affichage: args.affichage, retour: args.retour })
    } else if args.ecriture {
        match args.fichier {
            Some(fichier) => Ok(Operation::Write { fichier }),
            None => Err(UsageError::MissingFile),
        }
    } else {
        Ok(Operation::Idle)
    }
}

/// Chooses the operation of a run from its options.
pub fn serie_via_usb(args: Args) -> (plan: Result<Operation, UsageError>)
    ensures
        plan == operation_of(args),
{
    if args.svg && args.lecture {
        Ok(Operation::ReadSvg { sortie: args.fichier })
    } else if args.svg && args.ecriture {
        match args.fichier {
            Some(fichier) => Ok(Operation::WriteSvg { fichier }),
            None => Err(UsageError::MissingFile),
        }
    } else if args.lecture {
        Ok(Operation::Read { affichage: args.affichage, retour: args.retour })
    } else if args.ecriture {
        match args.fichier {
            Some(fichier) => Ok(Operation::Write { fichier }),
            None => Err(UsageError::MissingFile),
        }
    } else {
        Ok(Operation::Idle)
    }
}

} // verus!
