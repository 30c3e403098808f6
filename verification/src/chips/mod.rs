pub mod byte;
