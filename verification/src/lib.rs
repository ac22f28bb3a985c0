//! The decisions of a game client that plays for itself.

pub mod advance;
pub mod burden;
pub mod buying_laws;
pub mod carrying;
pub mod casting;
pub mod casting_laws;
pub mod client;
pub mod clock;
pub mod config;
pub mod counters;
pub mod counters_laws;
pub mod grow;
pub mod grow_laws;
pub mod hand;
pub mod hand_laws;
pub mod holdings;
pub mod holdings_laws;
pub mod hunt;
pub mod hunt_laws;
pub mod hunting;
pub mod hunting_laws;
pub mod items;
pub mod items_laws;
pub mod logistics;
pub mod logistics_laws;
pub mod logoff;
pub mod loot_laws;
pub mod memory_laws;
pub mod needs;
pub mod needs_laws;
pub mod order;
pub mod orders;
pub mod party;
pub mod party_laws;
pub mod place;
pub mod pour;
pub mod raises;
pub mod raises_laws;
pub mod records;
pub mod run;
pub mod run_laws;
pub mod setting_out;
pub mod single;
pub mod single_laws;
pub mod snapshot;
pub mod spending;
pub mod spending_laws;
pub mod state;
pub mod state_laws;
pub mod stops;
pub mod store;
pub mod store_laws;
pub mod sums;
pub mod text;
pub mod text_laws;
pub mod things;
pub mod town_laws;
pub mod townrun;
pub mod trip_laws;
pub mod vendors;
pub mod vendors_laws;
pub mod wares;
pub mod ways;
pub mod ways_laws;
