pub mod notes;
