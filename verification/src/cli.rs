//! The configuration surface consumed by the adapter's constructor: listen
//! address, passive-port range, log level, and the base URLs of the two
//! remote services.  Argument parsing itself happens outside this crate;
//! the conversion into the remote configuration is verified here.

use vstd::prelude::*;
use crate::api::ApiConfig;

verus! {

/// The service's configuration values.
#[derive(Clone, Debug)]
pub struct Args {
    /// FTP server host name to listen on.
    pub hostname: String,
    /// FTP server port.
    pub port: u16,
    /// First passive port used for file transfers.
    pub passive_start_port: u16,
    /// Last passive port used for file transfers.
    pub passive_end_port: u16,
    /// Log level name.
    pub log_level: String,
    /// Base URL of the metadata/directory service, without trailing slash.
    pub backend_url: String,
    /// Base URL of the binary content service, without trailing slash.
    pub filehandler_url: String,
}

impl ApiConfig {
    /// The remote configuration drawn from the arguments: the directory
    /// service speaks under `/api`, the content service under `/data`.
    pub fn from(args: Args) -> (r: ApiConfig)
        ensures
            r.fss_base_url@ == args.backend_url@ + "/api"@,
            r.fhs_base_url@ == args.filehandler_url@ + "/data"@,
    {
        let mut backend_url = args.backend_url;
        backend_url.append("/api");
        let mut filehandler_url = args.filehandler_url;
        filehandler_url.append("/data");
        ApiConfig { fss_base_url: backend_url, fhs_base_url: filehandler_url }
    }
}

} // verus!
