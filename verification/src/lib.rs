//! Shapeshifter: a desktop-environment switcher and profile manager. The
//! library holds the application's rules: the known desktop environments
//! and what a profile of each archives, where profiles and configuration
//! live, how the profile list and the profile grid are built, how session
//! files are read and a session is chosen, and the steps of installing and
//! removing desktop environments.

pub mod text;
pub mod desktops;
pub mod paths;
pub mod records;
pub mod display;
pub mod profiles;
pub mod sessions;
pub mod packages;
pub mod saving;
