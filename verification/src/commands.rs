use vstd::prelude::*;
use crate::runtime::{MarkerError, RuntimeState};

verus! {

/// Why a command a script issued was refused.
#[derive(Clone, Copy, Debug, PartialEq, Eq, Structural)]
pub enum CommandError {
    /// The commands handle was used after the system or observer that received it returned.
    OutsideScope,
    /// A key of a spawn table is not a userdata value.
    SpawnKeyNotUserData,
    /// A key of a spawn table is a userdata value but not a component marker.
    SpawnKeyNotMarker,
    /// The data given for a spawned component is neither a table nor the default marker.
    SpawnDataInvalid,
    /// A component marker does not name a registered component.
    Marker(MarkerError),
}

/// Checks that a commands handle is still used within the call that received it.
pub fn check_valid(scope_valid: bool) -> (r: Result<(), CommandError>)
    ensures
        scope_valid ==> r is Ok,
        !scope_valid ==> r == Err::<(), CommandError>(CommandError::OutsideScope),
{
    if scope_valid {
        Ok(())
    } else {
        Err(CommandError::OutsideScope)
    }
}

/// A key of a spawn table, as the script gave it.
#[derive(Clone, Copy, Debug, PartialEq, Eq, Structural)]
pub enum SpawnKey {
    /// A component marker, by its index.
    Marker(usize),
    /// A userdata value of another kind.
    OtherUserData,
    /// Any other value.
    NotUserData,
}

/// A value of a spawn table, as the script gave it.
#[derive(Clone, Copy, Debug, PartialEq, Eq, Structural)]
pub enum SpawnValue {
    /// The marker asking for the component's default value.
    DefaultMarker,
    /// A table of field values.
    Table,
    /// Any other value.
    Other,
}

/// How a spawned component gets its value.
#[derive(Clone, Copy, Debug, PartialEq, Eq, Structural)]
pub enum SpawnData {
    /// From the component's default.
    Default,
    /// From the table given.
    Table,
}

/// Reads one entry of a spawn table: the component id behind its key, and how the
/// component gets its value. The key is checked first, then the value.
pub fn spawn_entry(runtime: &RuntimeState, key: SpawnKey, value: SpawnValue) -> (r: Result<
    (usize, SpawnData),
    CommandError,
>)
    ensures
        key == SpawnKey::NotUserData ==> r == Err::<(usize, SpawnData), CommandError>(
            CommandError::SpawnKeyNotUserData,
        ),
        key == SpawnKey::OtherUserData ==> r == Err::<(usize, SpawnData), CommandError>(
            CommandError::SpawnKeyNotMarker,
        ),
        key matches SpawnKey::Marker(m) ==> {
            let id = runtime.component_id_spec(m);
            match id {
                Err(e) => r == Err::<(usize, SpawnData), CommandError>(CommandError::Marker(e)),
                Ok(id) => match value {
                    SpawnValue::DefaultMarker => r == Ok::<(usize, SpawnData), CommandError>(
                        (id, SpawnData::Default),
                    ),
                    SpawnValue::Table => r == Ok::<(usize, SpawnData), CommandError>(
                        (id, SpawnData::Table),
                    ),
                    SpawnValue::Other => r == Err::<(usize, SpawnData), CommandError>(
                        CommandError::SpawnDataInvalid,
                    ),
                },
            }
        },
{
    let marker = match key {
        SpawnKey::Marker(m) => m,
        SpawnKey::OtherUserData => {
            return Err(CommandError::SpawnKeyNotMarker);
        },
        SpawnKey::NotUserData => {
            return Err(CommandError::SpawnKeyNotUserData);
        },
    };
    let id = match runtime.component_id(marker) {
        Ok(id) => id,
        Err(e) => {
            return Err(CommandError::Marker(e));
        },
    };
    match value {
        SpawnValue::DefaultMarker => Ok((id, SpawnData::Default)),
        SpawnValue::Table => Ok((id, SpawnData::Table)),
        SpawnValue::Other => Err(CommandError::SpawnDataInvalid),
    }
}

/// The component id of the event a trigger command names.
pub fn trigger_event(runtime: &RuntimeState, event_marker: usize) -> (r: Result<usize, CommandError>)
    ensures
        match runtime.component_id_spec(event_marker) {
            Ok(id) => r == Ok::<usize, CommandError>(id),
            Err(e) => r == Err::<usize, CommandError>(CommandError::Marker(e)),
        },
{
    match runtime.component_id(event_marker) {
        Ok(id) => Ok(id),
        Err(e) => Err(CommandError::Marker(e)),
    }
}

}
