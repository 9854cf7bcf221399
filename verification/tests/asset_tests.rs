use bismuth::asset::{asset_column, asset_path, check_decoded, get_type, stale_asset, AssetError};
use bismuth::models::page::Page;

#[test]
fn plain_uri_gives_its_path() {
    assert_eq!(asset_path("asset://page-assets/cover.png"), Ok("page-assets/cover.png".to_string()));
    assert_eq!(asset_path("asset://page_assets/cover.png"), Ok("page_assets/cover.png".to_string()));
}

#[test]
fn localhost_and_leading_slashes_are_dropped() {
    assert_eq!(
        asset_path("asset://localhost/page-assets/a.png"),
        Ok("page-assets/a.png".to_string())
    );
    assert_eq!(
        asset_path("http://localhostlocalhost///page_assets/a.png"),
        Ok("page_assets/a.png".to_string())
    );
    assert_eq!(asset_path("asset:////page-assets/a.png"), Ok("page-assets/a.png".to_string()));
}

#[test]
fn percent_escapes_are_decoded() {
    assert_eq!(
        asset_path("asset://localhost/page-assets/my%20file%21.png"),
        Ok("page-assets/my file!.png".to_string())
    );
    assert_eq!(
        asset_path("asset://page%2Dassets%2Fcaf%C3%A9.png"),
        Ok("page-assets/café.png".to_string())
    );
    // a plus sign is kept, and so is an escape that is cut short
    assert_eq!(asset_path("asset://page-assets/a+b%2"), Ok("page-assets/a+b%2".to_string()));
}

#[test]
fn uri_without_a_single_separator_is_invalid() {
    assert_eq!(asset_path("page-assets/a.png"), Err(AssetError::InvalidUri));
    assert_eq!(asset_path(""), Err(AssetError::InvalidUri));
    assert_eq!(asset_path("asset://page-assets/a://b"), Err(AssetError::InvalidUri));
    assert_eq!(AssetError::InvalidUri.status(), 400);
}

#[test]
fn escapes_that_are_not_utf8_are_refused() {
    assert_eq!(asset_path("asset://page-assets/%FF.png"), Err(AssetError::UndecodablePath));
    assert_eq!(AssetError::UndecodablePath.status(), 400);
}

#[test]
fn paths_outside_the_asset_directory_are_forbidden() {
    assert_eq!(asset_path("asset://etc/passwd"), Err(AssetError::OutsideAssets));
    assert_eq!(asset_path("asset://localhost/"), Err(AssetError::OutsideAssets));
    assert_eq!(asset_path("asset://page-assets"), Err(AssetError::OutsideAssets));
    assert_eq!(asset_path("asset://Page-Assets/a.png"), Err(AssetError::OutsideAssets));
    assert_eq!(AssetError::OutsideAssets.status(), 403);
}

#[test]
fn decoded_paths_are_checked() {
    assert_eq!(check_decoded(None), Err(AssetError::UndecodablePath));
    assert_eq!(check_decoded(Some("page-assets/x".to_string())), Ok("page-assets/x".to_string()));
    assert_eq!(check_decoded(Some("page_assets/".to_string())), Ok("page_assets/".to_string()));
    assert_eq!(check_decoded(Some("x/page-assets/".to_string())), Err(AssetError::OutsideAssets));
    assert_eq!(check_decoded(Some(String::new())), Err(AssetError::OutsideAssets));
}

#[test]
fn known_extensions_have_their_media_type() {
    assert_eq!(get_type(Some("png")), "image/png");
    assert_eq!(get_type(Some("jpg")), "image/jpeg");
    assert_eq!(get_type(Some("jpeg")), "image/jpeg");
    assert_eq!(get_type(Some("webp")), "image/webp");
    assert_eq!(get_type(Some("gif")), "image/gif");
    assert_eq!(get_type(Some("svg")), "image/svg+xml");
    assert_eq!(get_type(Some("ico")), "image/x-icon");
}

#[test]
fn other_extensions_are_plain_bytes() {
    assert_eq!(get_type(None), "application/octet-stream");
    assert_eq!(get_type(Some("")), "application/octet-stream");
    assert_eq!(get_type(Some("PNG")), "application/octet-stream");
    assert_eq!(get_type(Some("pn")), "application/octet-stream");
    assert_eq!(get_type(Some("pngx")), "application/octet-stream");
    assert_eq!(get_type(Some("txt")), "application/octet-stream");
}

#[test]
fn asset_type_selects_the_column() {
    assert_eq!(asset_column("icon"), "icon");
    assert_eq!(asset_column("cover"), "cover");
    assert_eq!(asset_column("Icon"), "cover");
    assert_eq!(asset_column(""), "cover");
}

#[test]
fn stale_asset_is_the_old_file_under_another_name() {
    let page = Page::new("P".to_string()).with_icon("old.png".to_string());
    assert_eq!(stale_asset(&page, "icon", "new.png"), Some("old.png".to_string()));
    assert_eq!(stale_asset(&page, "icon", "old.png"), None);
    assert_eq!(stale_asset(&page, "cover", "new.png"), None);
    let mut with_cover = page.clone();
    with_cover.cover = Some("c.jpg".to_string());
    assert_eq!(stale_asset(&with_cover, "cover", "new.png"), Some("c.jpg".to_string()));
    assert_eq!(stale_asset(&with_cover, "anything", "c.jpg"), None);
}
