pub mod head;
pub mod hmtx;
pub mod maxp;
