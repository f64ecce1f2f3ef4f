use sudocurs::errors::GameError;
use sudocurs::errors::SolverError;
use sudocurs::errors::UiError;

#[test]
fn game_error_messages() {
    assert_eq!(
        GameError::IllegalValue.message(),
        "Illegal value not in [0; side_size]."
    );
    assert_eq!(GameError::InvalidValue.message(), "Invalid value for this cell.");
    assert_eq!(
        GameError::IllegalPosition.message(),
        "This cell position is invalid."
    );
    assert_eq!(
        GameError::NonEmptyCell.message(),
        "This cell already contain a value."
    );
    assert_eq!(
        GameError::CreateSaveFileError.message(),
        "Unable to create the save file."
    );
    assert_eq!(
        GameError::NoSaveFile.message(),
        "Cannot save the game because it does not have a save file attached."
    );
    assert_eq!(GameError::WriteSaveError.message(), "Unable to save to file.");
    assert_eq!(
        GameError::OpenFileError.message(),
        "Unable to read the save file content."
    );
    assert_eq!(
        GameError::ParseSaveFileError.message(),
        "Unable to parse the save file correctly."
    );
    assert_eq!(
        GameError::IncorrectSaveFile.message(),
        "The save file contains erroneous data."
    );
    assert_eq!(
        GameError::OpenSaveFileError.message(),
        "Unable to open the save file again."
    );
}

#[test]
fn solver_error_message() {
    assert_eq!(
        SolverError::FailedToSolve.message(),
        "Failed to solve the grid."
    );
}

#[test]
fn ui_error_messages() {
    assert_eq!(
        UiError::LoadConfigError.message(),
        "Failed to load the configuration file."
    );
    assert_eq!(
        UiError::ConfigSyntaxError.message(),
        "Configuration file syntax error."
    );
    assert_eq!(UiError::LoadSpriteError.message(), "Failed to load the sprite.");
    assert_eq!(UiError::LoadFontError.message(), "Unable to load font file.");
    assert_eq!(
        UiError::CreateSaveFileError.message(),
        "Unable to create the save file."
    );
    assert_eq!(UiError::SDL2Error.message(), "Generic SDL2 Error");
    assert_eq!(
        UiError::MissingLoadedTexture.message(),
        "Missing loaded texture."
    );
    assert_eq!(
        UiError::WriteConfigError.message(),
        "An error occured when trying to write the updated configuration file."
    );
}

#[test]
fn messages_are_one_line() {
    let all = [
        GameError::IllegalValue,
        GameError::InvalidValue,
        GameError::IllegalPosition,
        GameError::NonEmptyCell,
        GameError::CreateSaveFileError,
        GameError::NoSaveFile,
        GameError::WriteSaveError,
        GameError::OpenFileError,
        GameError::ParseSaveFileError,
        GameError::IncorrectSaveFile,
        GameError::OpenSaveFileError,
    ];
    for (i, a) in all.iter().enumerate() {
        assert!(!a.message().contains('\n'));
        for b in all[i + 1..].iter() {
            assert_ne!(a.message(), b.message());
        }
    }
}

#[test]
fn failed_save_file_is_a_host_error_too() {
    assert_eq!(
        UiError::from(GameError::CreateSaveFileError),
        UiError::CreateSaveFileError
    );
}
