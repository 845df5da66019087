pub mod binary;
pub mod error;
pub mod excel;
pub mod sqpack;
pub mod sestring;
