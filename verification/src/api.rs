//! Shapes of the remote metadata/directory service interface: configuration,
//! the wire resources, and the remote error classification.

use vstd::prelude::*;

verus! {

/// Base URLs of the two collaborating remote services.
#[derive(Clone, Debug)]
pub struct ApiConfig {
    /// Base URL of the metadata/directory service.
    pub fss_base_url: String,
    /// Base URL of the binary content service.
    pub fhs_base_url: String,
}

/// A remote call failure: either the transport failed (the service could not
/// be reached, or its response could not be decoded), or the service answered
/// with a well-formed error body, carried as text.
#[derive(Clone, Debug)]
pub enum ApiError {
    /// Transport failure, with the transport's own description.
    ReqwestError(String),
    /// A well-formed remote error response, as text.
    ResponseMalformed(String),
}

/// A user known to the remote service.
#[derive(Clone, Debug)]
pub struct UserResource {
    pub id: u32,
    pub privileges: String,
    pub username: String,
}

/// A remote inode: the unit of filesystem metadata, covering both files and
/// directories.  An absent mime-type means the inode is a directory.
#[derive(Clone, Debug)]
pub struct InodeResource {
    pub id: String,
    pub last_updated: u64,
    pub last_updated_by: UserResource,
    pub mime_type: Option<String>,
    pub name: String,
    pub path: String,
    pub size: u64,
}

/// The listing of a folder: its child inodes and its owning user.
#[derive(Clone, Debug)]
pub struct ContentsResource {
    pub inodes: Vec<InodeResource>,
    pub owner: UserResource,
}

/// A well-formed error body of the remote service.
#[derive(Clone, Debug)]
pub struct ErrorResponse {
    pub message: String,
    pub status: Option<String>,
    pub errors: Option<Vec<String>>,
}

/// Request body for creating a folder.
#[derive(Clone, Debug)]
pub struct FolderCreationResource {
    pub name: String,
    pub parent_path: String,
}

/// Request body for renaming an inode in place.
#[derive(Clone, Debug)]
pub struct RenameResource {
    pub new_name: String,
    pub path: String,
}

/// Request body for moving an inode to a new parent.
#[derive(Clone, Debug)]
pub struct MoveResource {
    pub new_path: String,
    pub path: String,
}

/// Request body of an upload preflight.
#[derive(Clone, Debug)]
pub struct PreflightRequestResource {
    pub parent_path: String,
    pub relative_paths: Vec<String>,
}

/// Response body of an upload preflight.
#[derive(Clone, Debug)]
pub struct PreflightResponseResource {
    pub path: String,
    pub result: String,
}

impl ApiError {
    /// The human-readable description of a remote failure.
    pub fn describe(&self) -> (r: String)
        ensures
            match self {
                ApiError::ReqwestError(e) => r@ == "Request failed with error "@ + e@,
                ApiError::ResponseMalformed(e) => r@ == "Response was malformed: "@ + e@,
            },
    {
        match self {
            ApiError::ReqwestError(e) => {
                let mut s = "Request failed with error ".to_owned();
                s.append(e.as_str());
                s
            },
            ApiError::ResponseMalformed(e) => {
                let mut s = "Response was malformed: ".to_owned();
                s.append(e.as_str());
                s
            },
        }
    }
}


impl ErrorResponse {
    /// The text under which a well-formed remote error body is reported to
    /// the protocol layer, with its status code or `unkown`.
    pub fn protocol_message(&self) -> (r: String)
        ensures
            r@ == "Error response with code '"@ + (match self.status {
                Some(st) => st@,
                None => "unkown"@,
            }) + "' and reason '"@ + self.message@ + "'."@,
    {
        let mut s = "Error response with code '".to_owned();
        match &self.status {
            Some(st) => s.append(st.as_str()),
            None => s.append("unkown"),
        }
        s.append("' and reason '");
        s.append(self.message.as_str());
        s.append("'.");
        proof {
            assert(s@ =~= "Error response with code '"@ + (match self.status {
                Some(st) => st@,
                None => "unkown"@,
            }) + "' and reason '"@ + self.message@ + "'."@);
        }
        s
    }
}

} // verus!
