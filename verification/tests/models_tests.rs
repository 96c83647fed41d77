use pixel_app::db::{frame_count_from_max, pixel_delete_scope, DeleteScope};
use pixel_app::errors::{DBError, ImageRenderError};
use pixel_app::models::{PixelImage, PixelImageDesc};

#[test]
fn database_error_messages() {
    assert_eq!(DBError::DatabaseError("bad query".to_string()).to_string(), "DatabaseError: bad query");
    assert_eq!(DBError::UnknownError("oops".to_string()).to_string(), "UnknownError: oops");
    assert_eq!(DBError::AlreadyExists("x".to_string()).to_string(), "Already Exists: x");
    assert_eq!(DBError::NoneFound.to_string(), "No result found");
}

#[test]
fn collection_name_taken() {
    let e = DBError::collection_exists(&"cats".to_string());
    match &e {
        DBError::AlreadyExists(m) => assert_eq!(m, "Collection cats already exists"),
        _ => panic!("expected AlreadyExists"),
    }
    assert_eq!(e.to_string(), "Already Exists: Collection cats already exists");
}

#[test]
fn render_error_message() {
    assert_eq!(
        ImageRenderError::PercentageNotValid("1.5".to_string()).to_string(),
        "Percentage not valid: 1.5"
    );
}

#[test]
fn frame_count_is_one_past_the_largest_frame() {
    match frame_count_from_max(Some(3)) {
        Ok(n) => assert_eq!(n, 4),
        Err(_) => panic!("expected a count"),
    }
    match frame_count_from_max(Some(0)) {
        Ok(n) => assert_eq!(n, 1),
        Err(_) => panic!("expected a count"),
    }
    match frame_count_from_max(None) {
        Ok(_) => panic!("expected an error"),
        Err(e) => assert_eq!(
            e.to_string(),
            "DatabaseError: Failed to find column while search for frame count"
        ),
    }
}

#[test]
fn delete_scopes() {
    assert_eq!(pixel_delete_scope(-1), DeleteScope::AllFrames);
    assert_eq!(pixel_delete_scope(0), DeleteScope::Frame(0));
    assert_eq!(pixel_delete_scope(7), DeleteScope::Frame(7));
}

#[test]
fn duplicate_description() {
    let image = PixelImage {
        id: 4,
        name: "old".to_string(),
        description: "a sprite".to_string(),
        owner_id: 1,
        width: 32,
        height: 16,
        pixelwidth: 4,
        guid: "g".to_string(),
    };
    let d = PixelImageDesc::duplicate_of(&image, "copy".to_string());
    assert_eq!(d.name, "copy");
    assert_eq!(d.description, "a sprite");
    assert_eq!((d.width, d.height, d.pixelwidth), (32, 16, 4));
}
