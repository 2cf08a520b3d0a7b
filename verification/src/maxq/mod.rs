pub mod maxnode;
pub mod primitivenode;
pub mod qnode;
