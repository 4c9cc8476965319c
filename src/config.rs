//! Settings of the service around the catalog.

use vstd::prelude::*;

verus! {

/// Where the service listens and whom it serves.
pub struct ApiConfig {
    pub host: String,
    pub port: u16,
    pub upload_dir: String,
    pub cors_origins: Vec<String>,
}

impl Default for ApiConfig {
    fn default() -> (r: Self)
        ensures
            r.host@ == "127.0.0.1"@,
            r.port == 8080,
            r.upload_dir@ == "uploads"@,
            r.cors_origins@.len() == 1,
            r.cors_origins@[0]@ == "http://localhost:3000"@,
    {
        let mut origins: Vec<String> = Vec::new();
        origins.push(String::from_str("http://localhost:3000"));
        ApiConfig {
            host: String::from_str("127.0.0.1"),
            port: 8080,
            upload_dir: String::from_str("uploads"),
            cors_origins: origins,
        }
    }
}

/// Writes reports of stored records under a directory.
pub struct ReportGenerator {
    output_dir: String,
}

impl ReportGenerator {
    pub fn new(output_dir: String) -> (r: Self)
        ensures
            r.output_dir() == output_dir@,
    {
        ReportGenerator { output_dir }
    }

    /// The directory that receives the reports.
    pub closed spec fn output_dir(&self) -> Seq<char> {
        self.output_dir@
    }

    /// The directory that receives the reports.
    pub fn output_dir_path(&self) -> (r: &String)
        ensures
            r@ == self.output_dir(),
    {
        &self.output_dir
    }
}

} // verus!
