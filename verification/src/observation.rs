//! Observation vocabulary shared by every sensor source.
use vstd::prelude::*;

verus! {

/// The kind of entity an observation describes.
#[derive(Clone, Copy, Debug, PartialEq, Eq, Structural)]
pub enum EntityType {
    Aircraft,
    WeatherCell,
    RfEvent,
    AudioEvent,
    CameraEvent,
    Satellite,
}

/// Stable lowercase name of an entity type (its JSON encoding).
pub open spec fn entity_type_name(t: EntityType) -> Seq<char> {
    match t {
        EntityType::Aircraft => "aircraft"@,
        EntityType::WeatherCell => "weather_cell"@,
        EntityType::RfEvent => "rf_event"@,
        EntityType::AudioEvent => "audio_event"@,
        EntityType::CameraEvent => "camera_event"@,
        EntityType::Satellite => "satellite"@,
    }
}

impl EntityType {
    /// Stable lowercase name (matches the JSON encoding).
    pub fn as_str(&self) -> (r: &'static str)
        ensures
            r@ == entity_type_name(*self),
    {
        match self {
            EntityType::Aircraft => "aircraft",
            EntityType::WeatherCell => "weather_cell",
            EntityType::RfEvent => "rf_event",
            EntityType::AudioEvent => "audio_event",
            EntityType::CameraEvent => "camera_event",
            EntityType::Satellite => "satellite",
        }
    }
}

} // verus!
