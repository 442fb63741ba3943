use vts::cli::{
    check_file_is_not_pipe, lutmap_output_filename, Command, DesignEntryCommand, DesignEntryError,
};

#[test]
fn test_pipe_is_refused() {
    assert_eq!(
        check_file_is_not_pipe(Some("-")),
        Err(DesignEntryError::RequiresAbcYosysReadString)
    );
    assert_eq!(check_file_is_not_pipe(Some("design.v")), Ok(()));
    assert_eq!(check_file_is_not_pipe(None), Ok(()));
}

#[test]
fn test_lutmap_output_defaults_to_stdout() {
    assert_eq!(lutmap_output_filename(&None), "-");
    assert_eq!(lutmap_output_filename(&Some("out.blif".to_string())), "out.blif");
}

#[test]
fn test_command_names() {
    let check = DesignEntryCommand::Check { input_filename: "a.v".to_string() };
    let lutmap = DesignEntryCommand::LutMap {
        input_filename: "a.v".to_string(),
        output_filename: None,
        k_lut: 6,
    };
    assert_eq!(check.name(), "check");
    assert_eq!(lutmap.name(), "lutmap");
    assert_eq!(Command::DesignEntry { command: check }.name(), "design-entry");
}
