pub mod aws;
pub mod violations;
