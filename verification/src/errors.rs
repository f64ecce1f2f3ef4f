//! The error kinds of the engine and of its hosts, each with its one-line
//! message.

use vstd::prelude::*;

verus! {

/// What can go wrong when a game is built, loaded, saved or played.
#[derive(Debug, Clone, Copy, PartialEq, Eq, Structural)]
pub enum GameError {
    /// The value is not in `1..=side`.
    IllegalValue,
    /// A cell in the same row, column or block already holds the value.
    InvalidValue,
    /// The position is outside the grid.
    IllegalPosition,
    /// The target cell already holds a value.
    NonEmptyCell,
    /// The save file could not be created.
    CreateSaveFileError,
    /// The game has no save file attached.
    NoSaveFile,
    /// The save could not be written.
    WriteSaveError,
    /// The save file could not be read.
    OpenFileError,
    /// The save text does not follow the format.
    ParseSaveFileError,
    /// The save text follows the format but its numbers do not fit together.
    IncorrectSaveFile,
    /// The save file could not be opened again for writing.
    OpenSaveFileError,
}

impl GameError {
    /// The message of each kind.
    pub open spec fn message_spec(self) -> Seq<char> {
        match self {
            GameError::IllegalValue => "Illegal value not in [0; side_size]."@,
            GameError::InvalidValue => "Invalid value for this cell."@,
            GameError::IllegalPosition => "This cell position is invalid."@,
            GameError::NonEmptyCell => "This cell already contain a value."@,
            GameError::CreateSaveFileError => "Unable to create the save file."@,
            GameError::NoSaveFile => "Cannot save the game because it does not have a save file attached."@,
            GameError::WriteSaveError => "Unable to save to file."@,
            GameError::OpenFileError => "Unable to read the save file content."@,
            GameError::ParseSaveFileError => "Unable to parse the save file correctly."@,
            GameError::IncorrectSaveFile => "The save file contains erroneous data."@,
            GameError::OpenSaveFileError => "Unable to open the save file again."@,
        }
    }

    /// The one-line, human-readable message of this error.
    pub fn message(&self) -> (text: String)
        ensures
            text@ == self.message_spec(),
    {
        match self {
            GameError::IllegalValue => "Illegal value not in [0; side_size].".to_owned(),
            GameError::InvalidValue => "Invalid value for this cell.".to_owned(),
            GameError::IllegalPosition => "This cell position is invalid.".to_owned(),
            GameError::NonEmptyCell => "This cell already contain a value.".to_owned(),
            GameError::CreateSaveFileError => "Unable to create the save file.".to_owned(),
            GameError::NoSaveFile => "Cannot save the game because it does not have a save file attached.".to_owned(),
            GameError::WriteSaveError => "Unable to save to file.".to_owned(),
            GameError::OpenFileError => "Unable to read the save file content.".to_owned(),
            GameError::ParseSaveFileError => "Unable to parse the save file correctly.".to_owned(),
            GameError::IncorrectSaveFile => "The save file contains erroneous data.".to_owned(),
            GameError::OpenSaveFileError => "Unable to open the save file again.".to_owned(),
        }
    }
}

/// What a solver reports when it gives up.
#[derive(Debug, Clone, Copy, PartialEq, Eq, Structural)]
pub enum SolverError {
    /// The solver could not complete the grid.
    FailedToSolve,
}

impl SolverError {
    /// The message of each kind.
    pub open spec fn message_spec(self) -> Seq<char> {
        match self {
            SolverError::FailedToSolve => "Failed to solve the grid."@,
        }
    }

    /// The one-line, human-readable message of this error.
    pub fn message(&self) -> (text: String)
        ensures
            text@ == self.message_spec(),
    {
        match self {
            SolverError::FailedToSolve => "Failed to solve the grid.".to_owned(),
        }
    }
}

/// What can go wrong in a host of the engine, be it a terminal or a window.
#[derive(Debug, Clone, Copy, PartialEq, Eq, Structural)]
pub enum UiError {
    /// The configuration file could not be read.
    LoadConfigError,
    /// The configuration file does not follow its syntax.
    ConfigSyntaxError,
    /// The font file could not be loaded.
    LoadFontError,
    /// An image could not be loaded.
    LoadSpriteError,
    /// The save file could not be created.
    CreateSaveFileError,
    /// An image that should have been loaded is missing.
    MissingLoadedTexture,
    /// The windowing library reported an error.
    SDL2Error,
    /// The configuration file could not be written.
    WriteConfigError,
}

impl UiError {
    /// The message of each kind.
    pub open spec fn message_spec(self) -> Seq<char> {
        match self {
            UiError::LoadConfigError => "Failed to load the configuration file."@,
            UiError::ConfigSyntaxError => "Configuration file syntax error."@,
            UiError::LoadSpriteError => "Failed to load the sprite."@,
            UiError::LoadFontError => "Unable to load font file."@,
            UiError::CreateSaveFileError => "Unable to create the save file."@,
            UiError::SDL2Error => "Generic SDL2 Error"@,
            UiError::MissingLoadedTexture => "Missing loaded texture."@,
            UiError::WriteConfigError => "An error occured when trying to write the updated configuration file."@,
        }
    }

    /// The one-line, human-readable message of this error.
    pub fn message(&self) -> (text: String)
        ensures
            text@ == self.message_spec(),
    {
        match self {
            UiError::LoadConfigError => "Failed to load the configuration file.".to_owned(),
            UiError::ConfigSyntaxError => "Configuration file syntax error.".to_owned(),
            UiError::LoadSpriteError => "Failed to load the sprite.".to_owned(),
            UiError::LoadFontError => "Unable to load font file.".to_owned(),
            UiError::CreateSaveFileError => "Unable to create the save file.".to_owned(),
            UiError::SDL2Error => "Generic SDL2 Error".to_owned(),
            UiError::MissingLoadedTexture => "Missing loaded texture.".to_owned(),
            UiError::WriteConfigError => "An error occured when trying to write the updated configuration file.".to_owned(),
        }
    }

    /// The host's error for an error of the game. Only the failure to create
    /// a save file has one.
    pub fn from(game_error: GameError) -> (error: UiError)
        requires
            game_error == GameError::CreateSaveFileError,
        ensures
            error == UiError::CreateSaveFileError,
    {
        UiError::CreateSaveFileError
    }
}

} // verus!
