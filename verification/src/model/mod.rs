//! The records of the corpus.

pub mod article;
pub mod article_category;
