pub mod graphics;
