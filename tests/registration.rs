use gl_fonts::register::{
    register_font_from_path, resolve_face, FontError, PathRegistration, RegistrationError,
};

#[test]
fn registering_a_known_path_is_a_no_op() {
    let known = vec!["/fonts/a.ttf".to_string(), "/fonts/b.ttf".to_string()];
    let r = register_font_from_path(&known, &"/fonts/b.ttf".to_string(), true);
    assert_eq!(r, Ok(PathRegistration::AlreadyRegistered));
}

#[test]
fn registering_a_new_path_loads_it() {
    let known = vec!["/fonts/a.ttf".to_string()];
    let r = register_font_from_path(&known, &"/fonts/c.ttf".to_string(), true);
    assert_eq!(r, Ok(PathRegistration::Load));
}

#[test]
fn registering_without_a_file_system_fails() {
    let r = register_font_from_path(&Vec::new(), &"/fonts/c.ttf".to_string(), false);
    assert_eq!(r, Err(RegistrationError::FilesystemUnavailable));
}

#[test]
fn unknown_family_falls_back_to_sans_serif() {
    assert_eq!(resolve_face(Some(3), Some(1)), Ok(3));
    assert_eq!(resolve_face(None, Some(1)), Ok(1));
    assert_eq!(resolve_face(None, None), Err(FontError::InitializationFailure));
}
