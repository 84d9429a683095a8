//! Infers a SQL `CREATE TABLE` statement from the values of a CSV file:
//! the type and nullability of each column come from every sampled row.

pub mod text;
pub mod infer;
pub mod sql;
pub mod table_name;
pub mod decode;
