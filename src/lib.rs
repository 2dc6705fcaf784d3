//! Information-theoretic classification of binary attribute vectors: corridor
//! binarization, majority reference vectors, Hamming geometry between classes,
//! containment characteristics over a growing radius and the exam decision.
pub mod binary_representation;
pub mod class_loader;
pub mod class_manager;
pub mod corridor;
pub mod criteria;
pub mod exam_data;
pub mod hamming;
pub mod pipeline;
pub mod sk_manager;
