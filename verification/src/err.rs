use vstd::prelude::*;

verus! {

/// The failure conditions that the entity, component and scene operations
/// report to their callers.
#[derive(Clone, Copy, Debug, PartialEq, Eq, Structural)]
pub enum ErrorKind {
    EntityMaxReached,
    EntityDoesNotExist,
    EntityDoesNotOwnComponent,
    ComponentNotRegistered,
    ComponentArrayDowncastFailure,
    SceneMaxReached,
    SceneDoesNotExist,
    NoCurrentScene,
}

impl ErrorKind {
    /// The message text for this error kind.
    pub open spec fn message(self) -> Seq<char> {
        match self {
            ErrorKind::EntityMaxReached => "max entity count reached"@,
            ErrorKind::EntityDoesNotExist => "entity doesn't exist in the scene"@,
            ErrorKind::EntityDoesNotOwnComponent => "entity doesn't have requested component"@,
            ErrorKind::ComponentNotRegistered => "unregistered component used"@,
            ErrorKind::ComponentArrayDowncastFailure => "failed to downcast component array"@,
            ErrorKind::SceneMaxReached => "max scene count reached"@,
            ErrorKind::SceneDoesNotExist => "scene doesn't exist"@,
            ErrorKind::NoCurrentScene => "there is no current scene"@,
        }
    }

    pub fn as_str(&self) -> (r: &'static str)
        ensures
            r@ == self.message(),
    {
        match *self {
            ErrorKind::EntityMaxReached => "max entity count reached",
            ErrorKind::EntityDoesNotExist => "entity doesn't exist in the scene",
            ErrorKind::EntityDoesNotOwnComponent => "entity doesn't have requested component",
            ErrorKind::ComponentNotRegistered => "unregistered component used",
            ErrorKind::ComponentArrayDowncastFailure => "failed to downcast component array",
            ErrorKind::SceneMaxReached => "max scene count reached",
            ErrorKind::SceneDoesNotExist => "scene doesn't exist",
            ErrorKind::NoCurrentScene => "there is no current scene",
        }
    }
}

/// An error raised by the entity-component-system core, carrying the kind of
/// failure that occurred.
#[derive(Debug)]
pub struct Error {
    kind: ErrorKind,
}

impl Error {
    /// The kind of failure this error reports.
    pub closed spec fn kind_spec(&self) -> ErrorKind {
        self.kind
    }

    pub(crate) fn new(kind: ErrorKind) -> (r: Error)
        ensures
            r.kind_spec() == kind,
    {
        Error { kind }
    }

    pub fn kind(&self) -> (k: ErrorKind)
        ensures
            k == self.kind_spec(),
    {
        self.kind
    }

    /// The message text of this error.
    pub fn as_str(&self) -> (r: &'static str)
        ensures
            r@ == self.kind_spec().message(),
    {
        self.kind.as_str()
    }
}

impl From<ErrorKind> for Error {
    fn from(value: ErrorKind) -> (r: Self) {
        Error { kind: value }
    }
}

impl vstd::std_specs::convert::FromSpecImpl<ErrorKind> for Error {
    open spec fn obeys_from_spec() -> bool {
        true
    }

    closed spec fn from_spec(value: ErrorKind) -> Error {
        Error { kind: value }
    }
}

} // verus!
