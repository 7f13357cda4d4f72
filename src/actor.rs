use vstd::prelude::*;
use crate::model::KindMismatch;
use crate::types::{ComponentAddress, PackageAddress};

verus! {

/// Who is running: a blueprint function, or a method of a component.
#[derive(Debug, Clone)]
pub enum ScryptoActor {
    Blueprint(PackageAddress, String),
    Component(ComponentAddress, PackageAddress, String),
}

impl ScryptoActor {
    pub fn blueprint(package_address: PackageAddress, blueprint_name: String) -> (r: Self)
        ensures
            r == ScryptoActor::Blueprint(package_address, blueprint_name),
    {
        ScryptoActor::Blueprint(package_address, blueprint_name)
    }

    pub fn component(
        component_address: ComponentAddress,
        package_address: PackageAddress,
        blueprint_name: String,
    ) -> (r: Self)
        ensures
            r == ScryptoActor::Component(component_address, package_address, blueprint_name),
    {
        ScryptoActor::Component(component_address, package_address, blueprint_name)
    }

    pub fn package_address(&self) -> (r: &PackageAddress)
        ensures
            self is Blueprint ==> *r == self->Blueprint_0,
            self is Component ==> *r == self->Component_1,
    {
        match self {
            ScryptoActor::Blueprint(package, _) => package,
            ScryptoActor::Component(_, package, _) => package,
        }
    }

    pub fn blueprint_name(&self) -> (r: &String)
        ensures
            self is Blueprint ==> *r == self->Blueprint_1,
            self is Component ==> *r == self->Component_2,
    {
        match self {
            ScryptoActor::Blueprint(_, blueprint) => blueprint,
            ScryptoActor::Component(_, _, blueprint) => blueprint,
        }
    }

    pub fn as_blueprint(&self) -> (r: Result<(PackageAddress, String), KindMismatch>)
        ensures
            r is Ok <==> self is Blueprint,
            r is Ok ==> r->Ok_0.0 == self->Blueprint_0 && r->Ok_0.1@ == self->Blueprint_1@,
            r is Err ==> r->Err_0 == KindMismatch::Actor,
    {
        match self {
            ScryptoActor::Blueprint(package_address, blueprint_name) => {
                Ok((*package_address, blueprint_name.clone()))
            },
            _ => Err(KindMismatch::Actor),
        }
    }

    pub fn as_component(&self) -> (r: Result<(ComponentAddress, PackageAddress, String), KindMismatch>)
        ensures
            r is Ok <==> self is Component,
            r is Ok ==> r->Ok_0.0 == self->Component_0 && r->Ok_0.1 == self->Component_1
                && r->Ok_0.2@ == self->Component_2@,
            r is Err ==> r->Err_0 == KindMismatch::Actor,
    {
        match self {
            ScryptoActor::Component(component_address, package_address, blueprint) => {
                Ok((*component_address, *package_address, blueprint.clone()))
            },
            _ => Err(KindMismatch::Actor),
        }
    }
}

/// The level of a log message.
#[derive(Debug, Clone, Copy, PartialEq, Eq, Structural)]
pub enum Level {
    Error,
    Warn,
    Info,
    Debug,
    Trace,
}

impl Level {
    /// The upper-case name of the level, as printed in logs.
    pub fn to_str(&self) -> (r: &'static str)
        ensures
            *self == Level::Error ==> r@ == "ERROR"@,
            *self == Level::Warn ==> r@ == "WARN"@,
            *self == Level::Info ==> r@ == "INFO"@,
            *self == Level::Debug ==> r@ == "DEBUG"@,
            *self == Level::Trace ==> r@ == "TRACE"@,
    {
        match self {
            Level::Error => "ERROR",
            Level::Warn => "WARN",
            Level::Info => "INFO",
            Level::Debug => "DEBUG",
            Level::Trace => "TRACE",
        }
    }
}

} // verus!
