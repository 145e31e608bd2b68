use ftp_fighter::api::{ApiConfig, ApiError, ContentsResource, ErrorResponse, InodeResource, UserResource};
use ftp_fighter::backend::{
    cwd_check, get_plan, list_entries, metadata_plan, mkd_plan, move_source_path, put_plan,
    rename_plan, FileFighter, MetadataPlan,
};
use ftp_fighter::errors::{transform_to_ftp_error, FtpErrorKind};
use ftp_fighter::metadata::InodeMetaData;

fn user(id: u32, name: &str) -> UserResource {
    UserResource {
        id,
        privileges: "USER".to_string(),
        username: name.to_string(),
    }
}

fn inode(path: &str, name: &str, mime: Option<&str>, size: u64, updated: u64) -> InodeResource {
    InodeResource {
        id: "42".to_string(),
        last_updated: updated,
        last_updated_by: user(7, "someone"),
        mime_type: mime.map(|m| m.to_string()),
        name: name.to_string(),
        path: path.to_string(),
        size,
    }
}

#[test]
fn rename_with_same_parent_plans_only_a_rename() {
    let plan = rename_plan("/a/x", "/a/y").unwrap();
    assert!(plan.needs_rename);
    assert!(!plan.needs_move);
    assert_eq!(plan.from_path, "/a/x");
    assert_eq!(plan.to_parent, "/a");
    assert_eq!(plan.to_name, "y");
    // no move call follows
    assert!(move_source_path(&plan, Some("/a/y".to_string())).is_none());
}

#[test]
fn rename_with_same_name_plans_only_a_move() {
    let plan = rename_plan("/a/x", "/b/x").unwrap();
    assert!(!plan.needs_rename);
    assert!(plan.needs_move);
    assert_eq!(plan.from_path, "/a/x");
    assert_eq!(plan.to_parent, "/b");
    assert_eq!(plan.to_name, "x");
    // the move starts from the original path, no rename result exists
    assert_eq!(move_source_path(&plan, None).unwrap(), "/a/x");
}

#[test]
fn rename_with_both_different_plans_rename_then_move() {
    let plan = rename_plan("/a/x", "/b/y").unwrap();
    assert!(plan.needs_rename);
    assert!(plan.needs_move);
    assert_eq!(plan.to_parent, "/b");
    assert_eq!(plan.to_name, "y");
    // the move uses the path the rename call returned
    let moved = move_source_path(&plan, Some("/elsewhere/y".to_string())).unwrap();
    assert_eq!(moved, "/elsewhere/y");
}

#[test]
fn rename_rejects_invalid_paths() {
    let err = rename_plan("/a/../../x", "/b/y").unwrap_err();
    assert_eq!(err.kind, FtpErrorKind::FileNameNotAllowedError);
    assert_eq!(err.message, "Path contained relative elements after normalizing");
    let err = rename_plan("/a/x", "/").unwrap_err();
    assert_eq!(err.kind, FtpErrorKind::FileNameNotAllowedError);
    assert_eq!(
        err.message,
        "Path for creating a directory must contain a parent and child component"
    );
}

#[test]
fn get_at_nonzero_offset_fails_without_any_call() {
    let err = get_plan("/a/x", 1).unwrap_err();
    assert_eq!(err.kind, FtpErrorKind::CommandNotImplemented);
    assert_eq!(err.message, "Gets at offset not equal to 0 are not implemented.");
    let ok = get_plan("/a/x", 0).unwrap();
    assert_eq!(ok, "/a/x");
}

#[test]
fn put_at_nonzero_offset_fails_without_any_call() {
    let err = put_plan("/a/x", 7).unwrap_err();
    assert_eq!(err.kind, FtpErrorKind::CommandNotImplemented);
    assert_eq!(err.message, "Puts at offset not equal to 0 are not implemented.");
    let plan = put_plan("/a/sub/file.png", 0).unwrap();
    assert_eq!(plan.parent_path, "/a/sub");
    assert_eq!(plan.name, "file.png");
    assert_eq!(plan.path, "/a/sub/file.png");
}

#[test]
fn mkd_splits_parent_and_name() {
    let plan = mkd_plan("/a/newdir").unwrap();
    assert_eq!(plan.parent_path, "/a");
    assert_eq!(plan.name, "newdir");
    let plan = mkd_plan("/topdir").unwrap();
    assert_eq!(plan.parent_path, "/");
    assert_eq!(plan.name, "topdir");
    let err = mkd_plan("/").unwrap_err();
    assert_eq!(err.kind, FtpErrorKind::FileNameNotAllowedError);
}

#[test]
fn cwd_on_a_file_fails_and_on_a_directory_succeeds() {
    let file = inode("/a/x.png", "x.png", Some("image/png"), 10, 0);
    let err = cwd_check(&file, 1).unwrap_err();
    assert_eq!(err.kind, FtpErrorKind::PermanentDirectoryNotAvailable);
    assert_eq!(err.message, "Path didn't point to a directory.");

    let dir = inode("/a/sub", "sub", None, 0, 0);
    assert!(cwd_check(&dir, 1).is_ok());
}

#[test]
fn metadata_request_detects_the_timestamp_convention() {
    match metadata_plan("/20221003093709 /Home/School").unwrap() {
        MetadataPlan::SetLastModified { path, timestamp } => {
            assert_eq!(path, "/Home/School");
            assert_eq!(timestamp.to_display_string(), "2022-10-03 09:37:09");
        }
        MetadataPlan::GetInode { .. } => panic!("expected a modification-time update"),
    }
    match metadata_plan("/Home/School").unwrap() {
        MetadataPlan::GetInode { path } => assert_eq!(path, "/Home/School"),
        MetadataPlan::SetLastModified { .. } => panic!("expected a plain inode fetch"),
    }
    let err = metadata_plan("../x").unwrap_err();
    assert_eq!(err.kind, FtpErrorKind::FileNameNotAllowedError);
}

#[test]
fn listing_maps_every_child_with_the_folder_owner() {
    let contents = ContentsResource {
        inodes: vec![
            inode("/d/a", "a", Some("text/plain"), 3, 100),
            inode("/d/b", "b", None, 0, 200),
        ],
        owner: user(9, "owner"),
    };
    let entries = list_entries(&contents);
    assert_eq!(entries.len(), 2);
    assert_eq!(entries[0].path, "/d/a");
    assert_eq!(entries[0].metadata.len(), 3);
    assert!(entries[0].metadata.is_file());
    assert!(!entries[0].metadata.is_dir());
    assert!(!entries[0].metadata.is_symlink());
    assert_eq!(entries[0].metadata.modified(), 100);
    assert_eq!(entries[0].metadata.uid(), 9);
    assert_eq!(entries[0].metadata.gid(), 9);
    assert_eq!(entries[1].path, "/d/b");
    assert!(entries[1].metadata.is_dir());
    assert_eq!(entries[1].metadata.uid(), 9);
}

#[test]
fn metadata_projection_uses_mime_type_for_directoryness() {
    let file = inode("/a/x", "x", Some("image/png"), 123, 55);
    let md = InodeMetaData::from(&file, 4);
    assert_eq!(md.len(), 123);
    assert!(md.is_file());
    assert_eq!(md.modified(), 55);
    assert_eq!(md.uid(), 4);
    assert_eq!(md.gid(), 4);
}

#[test]
fn remote_errors_are_classified_in_two_buckets() {
    let e = transform_to_ftp_error(ApiError::ReqwestError("connection refused".to_string()));
    assert_eq!(e.kind, FtpErrorKind::LocalError);
    assert_eq!(e.message, "Internal Server Error");

    let e = transform_to_ftp_error(ApiError::ResponseMalformed("no such folder".to_string()));
    assert_eq!(e.kind, FtpErrorKind::PermanentDirectoryNotAvailable);
    assert_eq!(e.message, "no such folder");
}

#[test]
fn error_response_text_carries_status_and_reason() {
    let resp = ErrorResponse {
        message: "not found".to_string(),
        status: Some("404".to_string()),
        errors: None,
    };
    assert_eq!(
        resp.protocol_message(),
        "Error response with code '404' and reason 'not found'."
    );
    let resp = ErrorResponse {
        message: "boom".to_string(),
        status: None,
        errors: None,
    };
    assert_eq!(
        resp.protocol_message(),
        "Error response with code 'unkown' and reason 'boom'."
    );
}

#[test]
fn adapter_advertises_restart_and_keeps_its_config() {
    let adapter = FileFighter::new(ApiConfig {
        fss_base_url: "http://localhost:8080/api".to_string(),
        fhs_base_url: "http://localhost:5000/data".to_string(),
    });
    assert_eq!(adapter.supported_features(), 1);
    assert_eq!(adapter.api_config.fss_base_url, "http://localhost:8080/api");
}
