pub mod bus;
pub mod button_block;
pub mod chars;
pub mod cli;
pub mod config;
pub mod icons;
pub mod image_block;
pub mod images;
pub mod layout;
pub mod manager;
pub mod maths_utility;
pub mod notification;
pub mod notification_block;
pub mod progress_block;
pub mod scrolling_text_block;
pub mod text;
pub mod text_block;
pub mod tree;
