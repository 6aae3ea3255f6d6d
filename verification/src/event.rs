//! The closed set of domain events and the timestamped, hashed record that
//! carries one of them.

use vstd::prelude::*;

verus! {

/// One thing that the log can report.
#[derive(Debug, PartialEq, Eq, Hash)]
pub enum VrcLogEvent {
    AppStart,
    AppStop,
    /// The log ended before a stop was written. Inferred, never read from a line.
    InvalidAppStop,
    Login { username: String, user_id: String },
    WorldEnter { world_name: String },
    InstanceJoin { world_id: String, instance_id: String },
    PlayerJoin { player_name: String, user_id: String },
    PlayerLeft { player_name: String, user_id: String },
    SelfLeft,
}

/// The mathematical value of a [`VrcLogEvent`]: the same variants, with each
/// string replaced by its sequence of characters.
pub enum EventView {
    AppStart,
    AppStop,
    InvalidAppStop,
    Login { username: Seq<char>, user_id: Seq<char> },
    WorldEnter { world_name: Seq<char> },
    InstanceJoin { world_id: Seq<char>, instance_id: Seq<char> },
    PlayerJoin { player_name: Seq<char>, user_id: Seq<char> },
    PlayerLeft { player_name: Seq<char>, user_id: Seq<char> },
    SelfLeft,
}

impl View for VrcLogEvent {
    type V = EventView;

    open spec fn view(&self) -> EventView {
        match *self {
            VrcLogEvent::AppStart => EventView::AppStart,
            VrcLogEvent::AppStop => EventView::AppStop,
            VrcLogEvent::InvalidAppStop => EventView::InvalidAppStop,
            VrcLogEvent::Login { username, user_id } => EventView::Login {
                username: username@,
                user_id: user_id@,
            },
            VrcLogEvent::WorldEnter { world_name } => EventView::WorldEnter {
                world_name: world_name@,
            },
            VrcLogEvent::InstanceJoin { world_id, instance_id } => EventView::InstanceJoin {
                world_id: world_id@,
                instance_id: instance_id@,
            },
            VrcLogEvent::PlayerJoin { player_name, user_id } => EventView::PlayerJoin {
                player_name: player_name@,
                user_id: user_id@,
            },
            VrcLogEvent::PlayerLeft { player_name, user_id } => EventView::PlayerLeft {
                player_name: player_name@,
                user_id: user_id@,
            },
            VrcLogEvent::SelfLeft => EventView::SelfLeft,
        }
    }
}

impl DeepView for VrcLogEvent {
    type V = EventView;

    open spec fn deep_view(&self) -> EventView {
        self@
    }
}

impl Clone for VrcLogEvent {
    fn clone(&self) -> (copy: Self)
        ensures
            copy == *self,
    {
        match self {
            VrcLogEvent::AppStart => VrcLogEvent::AppStart,
            VrcLogEvent::AppStop => VrcLogEvent::AppStop,
            VrcLogEvent::InvalidAppStop => VrcLogEvent::InvalidAppStop,
            VrcLogEvent::Login { username, user_id } => VrcLogEvent::Login {
                username: username.clone(),
                user_id: user_id.clone(),
            },
            VrcLogEvent::WorldEnter { world_name } => VrcLogEvent::WorldEnter {
                world_name: world_name.clone(),
            },
            VrcLogEvent::InstanceJoin { world_id, instance_id } => VrcLogEvent::InstanceJoin {
                world_id: world_id.clone(),
                instance_id: instance_id.clone(),
            },
            VrcLogEvent::PlayerJoin { player_name, user_id } => VrcLogEvent::PlayerJoin {
                player_name: player_name.clone(),
                user_id: user_id.clone(),
            },
            VrcLogEvent::PlayerLeft { player_name, user_id } => VrcLogEvent::PlayerLeft {
                player_name: player_name.clone(),
                user_id: user_id.clone(),
            },
            VrcLogEvent::SelfLeft => VrcLogEvent::SelfLeft,
        }
    }
}

impl VrcLogEvent {
    /// The name under which the store files this event: the name of its variant.
    pub open spec fn variant_name(self) -> Seq<char> {
        match self {
            VrcLogEvent::AppStart => "AppStart"@,
            VrcLogEvent::AppStop => "AppStop"@,
            VrcLogEvent::InvalidAppStop => "InvalidAppStop"@,
            VrcLogEvent::Login { .. } => "Login"@,
            VrcLogEvent::WorldEnter { .. } => "WorldEnter"@,
            VrcLogEvent::InstanceJoin { .. } => "InstanceJoin"@,
            VrcLogEvent::PlayerJoin { .. } => "PlayerJoin"@,
            VrcLogEvent::PlayerLeft { .. } => "PlayerLeft"@,
            VrcLogEvent::SelfLeft => "SelfLeft"@,
        }
    }

    /// The name of this event's variant, as the store's `event_type` column holds it.
    pub fn event_type(&self) -> (name: &'static str)
        ensures
            name@ == self.variant_name(),
    {
        match self {
            VrcLogEvent::AppStart => "AppStart",
            VrcLogEvent::AppStop => "AppStop",
            VrcLogEvent::InvalidAppStop => "InvalidAppStop",
            VrcLogEvent::Login { .. } => "Login",
            VrcLogEvent::WorldEnter { .. } => "WorldEnter",
            VrcLogEvent::InstanceJoin { .. } => "InstanceJoin",
            VrcLogEvent::PlayerJoin { .. } => "PlayerJoin",
            VrcLogEvent::PlayerLeft { .. } => "PlayerLeft",
            VrcLogEvent::SelfLeft => "SelfLeft",
        }
    }
}

/// An event with the moment it was logged and the fingerprint that keys it in
/// the store.
#[derive(Debug, PartialEq, Eq)]
pub struct LogPayload {
    pub event: VrcLogEvent,
    /// `YYYY-MM-DD HH:mm:ss`
    pub timestamp: String,
    pub hash: i64,
}

/// The mathematical value of a [`LogPayload`].
pub struct PayloadView {
    pub event: EventView,
    pub timestamp: Seq<char>,
    pub hash: i64,
}

impl View for LogPayload {
    type V = PayloadView;

    open spec fn view(&self) -> PayloadView {
        PayloadView { event: self.event@, timestamp: self.timestamp@, hash: self.hash }
    }
}

impl DeepView for LogPayload {
    type V = PayloadView;

    open spec fn deep_view(&self) -> PayloadView {
        self@
    }
}

impl Clone for LogPayload {
    fn clone(&self) -> (copy: Self)
        ensures
            copy == *self,
    {
        LogPayload {
            event: self.event.clone(),
            timestamp: self.timestamp.clone(),
            hash: self.hash,
        }
    }
}

} // verus!
