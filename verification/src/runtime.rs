pub mod stdlib;
