pub mod sqlite;
