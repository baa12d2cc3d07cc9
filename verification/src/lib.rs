//! The decisions behind the terminal's window chrome.

pub mod text;
pub mod order;
pub mod paths;
pub mod ssh_profile;
pub mod ssh_connect;
pub mod ssh_prompt;
pub mod groups;
pub mod workspace;
pub mod sections;
pub mod sidebar;
pub mod group_edits;
pub mod titles;
pub mod elide;
pub mod tab_strip;
pub mod sidebar_view;
pub mod drag;
pub mod remote_files;
pub mod sftp;
pub mod sftp_view;
pub mod preferences;
pub mod settings;
pub mod settings_search;
pub mod settings_pages;
pub mod theme_picker;
pub mod hosts;
pub mod agents;
pub mod shortcuts;
pub mod settings_results;
pub mod connections;
pub mod alias_search;
pub mod keychain;
pub mod chrome;
