//! What the settings service is made of.

use crate::setui::id_set::Id;
use vstd::prelude::*;

verus! {

/// The settings that the service manages.
#[derive(Clone, Copy, Debug, PartialEq, Eq, Structural)]
pub enum SettingType {
    Accessibility,
    Account,
    Audio,
    Device,
    Display,
    DoNotDisturb,
    FactoryReset,
    Input,
    Intl,
    Light,
    LightSensor,
    NightMode,
    Power,
    Privacy,
    Setup,
}

/// The policies that can be enabled for settings.
#[derive(Clone, Copy, Debug, PartialEq, Eq, Structural)]
pub enum PolicyType {
    Audio,
}

impl PolicyType {
    pub open spec fn setting(self) -> SettingType {
        match self {
            PolicyType::Audio => SettingType::Audio,
        }
    }

    /// The setting that the policy is for.
    pub fn setting_type(&self) -> (r: SettingType)
        ensures
            r == self.setting(),
    {
        match self {
            PolicyType::Audio => SettingType::Audio,
        }
    }
}

/// Identifies an agent that takes part in the service.
#[derive(Clone, Copy, Debug, PartialEq, Eq, Structural)]
pub struct AgentType {
    pub id: u32,
}

/// Which controllers are customized.
#[derive(Clone, Copy, Debug, PartialEq, Eq, Structural)]
pub enum ControllerFlag {
    ExternalBrightnessControl,
}

/// The parts of the display interface.
#[derive(Clone, Copy, Debug, PartialEq, Eq, Structural)]
pub struct InterfaceFlags {
    pub base: bool,
    pub light_sensor: bool,
}

/// The interfaces over which settings are served.
#[derive(Clone, Copy, Debug, PartialEq, Eq, Structural)]
pub enum Interface {
    Accessibility,
    Account,
    Audio,
    Device,
    Display(InterfaceFlags),
    DoNotDisturb,
    FactoryReset,
    Input,
    Intl,
    Light,
    NightMode,
    Power,
    Privacy,
    Setup,
}

impl Interface {
    /// The interface over which a setting is served. The light sensor is part of the display
    /// interface.
    pub open spec fn of(setting_type: SettingType) -> Interface {
        match setting_type {
            SettingType::Accessibility => Interface::Accessibility,
            SettingType::Account => Interface::Account,
            SettingType::Audio => Interface::Audio,
            SettingType::Device => Interface::Device,
            SettingType::Display => Interface::Display(
                InterfaceFlags { base: true, light_sensor: false },
            ),
            SettingType::DoNotDisturb => Interface::DoNotDisturb,
            SettingType::FactoryReset => Interface::FactoryReset,
            SettingType::Input => Interface::Input,
            SettingType::Intl => Interface::Intl,
            SettingType::Light => Interface::Light,
            SettingType::LightSensor => Interface::Display(
                InterfaceFlags { base: false, light_sensor: true },
            ),
            SettingType::NightMode => Interface::NightMode,
            SettingType::Power => Interface::Power,
            SettingType::Privacy => Interface::Privacy,
            SettingType::Setup => Interface::Setup,
        }
    }

    /// The interface over which a setting is served.
    pub fn from_setting(setting_type: SettingType) -> (r: Interface)
        ensures
            r == Interface::of(setting_type),
    {
        match setting_type {
            SettingType::Accessibility => Interface::Accessibility,
            SettingType::Account => Interface::Account,
            SettingType::Audio => Interface::Audio,
            SettingType::Device => Interface::Device,
            SettingType::Display => Interface::Display(
                InterfaceFlags { base: true, light_sensor: false },
            ),
            SettingType::DoNotDisturb => Interface::DoNotDisturb,
            SettingType::FactoryReset => Interface::FactoryReset,
            SettingType::Input => Interface::Input,
            SettingType::Intl => Interface::Intl,
            SettingType::Light => Interface::Light,
            SettingType::LightSensor => Interface::Display(
                InterfaceFlags { base: false, light_sensor: true },
            ),
            SettingType::NightMode => Interface::NightMode,
            SettingType::Power => Interface::Power,
            SettingType::Privacy => Interface::Privacy,
            SettingType::Setup => Interface::Setup,
        }
    }
}

/// Something that runs in the environment.
#[derive(Clone, Copy, Debug, PartialEq, Eq, Structural)]
pub enum Entity {
    /// The handler of a setting.
    Handler(SettingType),
}

/// Something that has to be there for something else to work.
#[derive(Clone, Copy, Debug, PartialEq, Eq, Structural)]
pub enum Dependency {
    Entity(Entity),
}

impl Id for SettingType {
    fn same(&self, other: &Self) -> (r: bool) {
        *self == *other
    }
}

impl Id for PolicyType {
    fn same(&self, other: &Self) -> (r: bool) {
        *self == *other
    }
}

impl Id for AgentType {
    fn same(&self, other: &Self) -> (r: bool) {
        *self == *other
    }
}

impl Id for ControllerFlag {
    fn same(&self, other: &Self) -> (r: bool) {
        *self == *other
    }
}

impl Id for Interface {
    fn same(&self, other: &Self) -> (r: bool) {
        *self == *other
    }
}

impl Id for Entity {
    fn same(&self, other: &Self) -> (r: bool) {
        *self == *other
    }
}

} // verus!
