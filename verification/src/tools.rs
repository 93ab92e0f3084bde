pub mod formatter;
