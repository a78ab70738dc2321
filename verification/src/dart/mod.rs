pub mod corp;
pub mod taxonomy;
pub mod opendart;
pub mod xbrl;
pub mod filings;
