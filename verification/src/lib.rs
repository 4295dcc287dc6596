pub mod text;
pub mod models;
pub mod permissions;
pub mod roles;
pub mod guilds;
pub mod friends;
pub mod channels;
pub mod messages;
pub mod guild_channels;
pub mod chat;
pub mod config;
pub mod clock;
pub mod jwt;
pub mod users;
pub mod cdn;
