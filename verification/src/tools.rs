pub mod portfolio;
