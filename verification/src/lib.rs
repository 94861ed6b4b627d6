//! A typed CAS Registry Number: parsing with checksum verification, a
//! canonical textual form, byte-wise ordering and hashing, and a random
//! generator.

pub mod generate;
pub mod grammar;
pub mod value;

pub use generate::random_cas_number;
pub use grammar::validate;
pub use value::CasNumber;
pub use value::InvalidCasNumber;
