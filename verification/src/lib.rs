pub mod hex;
pub mod text;
pub mod num;
pub mod object;
pub mod fields;
pub mod ofd;
pub mod structs;
pub mod legacy;
pub mod datetime;
pub mod qr;
pub mod ledger;
pub mod form;
pub mod pay;
pub mod receipt;
pub mod bill;
pub mod stats;
pub mod scrape;
pub mod filters;
pub mod clock;
pub mod shopping;
