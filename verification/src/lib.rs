//! A Minecraft launcher's logic, verified with Verus.

pub mod accounts;
pub mod auth;
pub mod classpath;
pub mod cli;
pub mod content;
pub mod db;
pub mod diagnostics;
pub mod fonts;
pub mod home;
pub mod icons;
pub mod instances;
pub mod java_download;
pub mod java_locator;
pub mod jvm;
pub mod lang;
pub mod launcher;
pub mod logs;
pub mod nbt;
pub mod sorting;
pub mod text;
pub mod ui_text;
pub mod versions;
