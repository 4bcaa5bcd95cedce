//! Configuring and preparing the environment of the settings service.

use fuchsia_logic::setui::base::{
    AgentType, ControllerFlag, Dependency, Entity, Interface, InterfaceFlags, PolicyType,
    SettingType,
};
use fuchsia_logic::setui::environment::{
    create_environment, get_configuration_handlers, AgentConfiguration, AgentSource, Controller,
    EnabledPoliciesConfiguration, EnabledServicesConfiguration, EnvironmentBuilder,
    HandlerRegistration, Lifespan, LifespanRun, PreparedEnvironment, Registrant, Runtime,
    ServiceConfiguration, ServiceFlags, DEFAULT_SETTING_PROXY_MAX_ATTEMPTS,
    DEFAULT_SETTING_PROXY_RESPONSE_TIMEOUT_MS, DEFAULT_TEARDOWN_TIMEOUT_SEC,
};
use fuchsia_logic::setui::id_set::{Id, IdSet};

const BASE: Interface = Interface::Display(InterfaceFlags { base: true, light_sensor: false });
const LIGHT_SENSOR: Interface =
    Interface::Display(InterfaceFlags { base: false, light_sensor: true });
const BOTH: Interface = Interface::Display(InterfaceFlags { base: true, light_sensor: true });

const ALL_SETTINGS: [SettingType; 15] = [
    SettingType::Power,
    SettingType::Accessibility,
    SettingType::Account,
    SettingType::Audio,
    SettingType::Device,
    SettingType::Display,
    SettingType::Light,
    SettingType::LightSensor,
    SettingType::Input,
    SettingType::Intl,
    SettingType::DoNotDisturb,
    SettingType::FactoryReset,
    SettingType::NightMode,
    SettingType::Privacy,
    SettingType::Setup,
];

/// What is handed on by name.
type Name = &'static str;
type Builder = EnvironmentBuilder<u8, Name, fn(AgentType) -> Name>;

fn elements<T: Id>(set: &IdSet<T>) -> Vec<T> {
    (0..set.len()).map(|i| set.get(i)).collect()
}

fn handler(setting_type: SettingType) -> Dependency {
    Dependency::Entity(Entity::Handler(setting_type))
}

fn registrant(registrar: Name, settings: &[SettingType]) -> Registrant<Name> {
    Registrant { registrar, dependencies: settings.iter().map(|s| handler(*s)).collect() }
}

/// The registrant of an interface, which depends on the setting it serves.
fn registrant_of(interface: Interface) -> Registrant<Name> {
    match interface {
        Interface::Audio => registrant("audio", &[SettingType::Audio]),
        Interface::Display(flags) if flags.base && flags.light_sensor => {
            registrant("display", &[SettingType::Display, SettingType::LightSensor])
        }
        Interface::Display(_) => registrant("display", &[SettingType::Display]),
        _ => registrant("other", &[]),
    }
}

fn from_services(services: &[SettingType]) -> ServiceConfiguration {
    ServiceConfiguration::from(
        AgentConfiguration { agent_types: IdSet::from_slice(&[AgentType { id: 4 }]) },
        EnabledServicesConfiguration::with_services(IdSet::from_slice(services)),
        EnabledPoliciesConfiguration::with_policies(IdSet::from_slice(&[PolicyType::Audio])),
        ServiceFlags {
            controller_flags: IdSet::from_slice(&[ControllerFlag::ExternalBrightnessControl]),
        },
    )
}

#[test]
fn services_lead_to_their_interfaces() {
    let configuration = from_services(&[SettingType::Audio, SettingType::Light]);
    assert_eq!(elements(&configuration.fidl_interfaces), [Interface::Audio, Interface::Light]);
    assert_eq!(elements(&configuration.agent_types), [AgentType { id: 4 }]);
    assert_eq!(elements(&configuration.policies), [PolicyType::Audio]);
    assert!(configuration.controller_flags.contains(&ControllerFlag::ExternalBrightnessControl));
    for setting_type in ALL_SETTINGS {
        let interfaces = from_services(&[setting_type]).fidl_interfaces;
        assert_eq!(elements(&interfaces), [Interface::from_setting(setting_type)]);
    }
}

#[test]
fn display_interfaces_are_consolidated() {
    let configuration = from_services(&[
        SettingType::Display,
        SettingType::Audio,
        SettingType::LightSensor,
    ]);
    assert_eq!(configuration.fidl_interfaces.len(), 2);
    assert!(configuration.fidl_interfaces.contains(&Interface::Audio));
    assert!(configuration.fidl_interfaces.contains(&BOTH));

    // One of the two stays as it is, and a second time changes nothing.
    let mut configuration = ServiceConfiguration::default();
    configuration.set_fidl_interfaces(IdSet::from_slice(&[LIGHT_SENSOR]));
    assert_eq!(elements(&configuration.fidl_interfaces), [LIGHT_SENSOR]);
    configuration.set_fidl_interfaces(IdSet::from_slice(&[BASE, BOTH, LIGHT_SENSOR]));
    assert_eq!(elements(&configuration.fidl_interfaces), [BOTH]);
    configuration.set_fidl_interfaces(IdSet::from_slice(&[BOTH]));
    assert_eq!(elements(&configuration.fidl_interfaces), [BOTH]);
}

#[test]
fn every_setting_is_registered_once() {
    let enabled = IdSet::from_slice(&[SettingType::Display, SettingType::Power]);
    let handlers = get_configuration_handlers(&enabled, &IdSet::new());
    let order: Vec<SettingType> = handlers.iter().map(|h| h.setting_type).collect();
    assert_eq!(order, ALL_SETTINGS);
    let plain: Vec<SettingType> = handlers
        .iter()
        .filter(|h| h.controller == Controller::Plain)
        .map(|h| h.setting_type)
        .collect();
    assert_eq!(
        plain,
        [
            SettingType::Power,
            SettingType::Account,
            SettingType::Device,
            SettingType::LightSensor
        ]
    );
    let stored: Vec<SettingType> =
        handlers.iter().filter(|h| h.initialize_storage).map(|h| h.setting_type).collect();
    assert_eq!(stored, [SettingType::Power, SettingType::Display]);
}

#[test]
fn brightness_can_be_controlled_elsewhere() {
    let enabled = IdSet::from_slice(&[SettingType::Display]);
    let flags = IdSet::from_slice(&[ControllerFlag::ExternalBrightnessControl]);
    assert_eq!(
        get_configuration_handlers(&enabled, &flags)[5],
        HandlerRegistration {
            setting_type: SettingType::Display,
            initialize_storage: true,
            controller: Controller::DataWithExternalBrightness,
        }
    );
    assert_eq!(
        get_configuration_handlers(&enabled, &IdSet::new())[5].controller,
        Controller::Data
    );
}

fn prepare(builder: Builder) -> PreparedEnvironment<u8, Name> {
    builder.prepare_env(Runtime::Nested, &registrant_of)
}

#[test]
fn settings_are_those_asked_for_and_those_needed() {
    let builder = Builder::new(7)
        .settings(&[SettingType::Intl, SettingType::Audio])
        .settings(&[SettingType::Privacy])
        .registrants(vec![registrant("a", &[SettingType::Setup, SettingType::Audio])])
        .fidl_interfaces(&[BASE, LIGHT_SENSOR]);
    let prepared = prepare(builder);
    assert_eq!(
        elements(&prepared.settings),
        [
            SettingType::Intl,
            SettingType::Audio,
            SettingType::Privacy,
            SettingType::Setup,
            SettingType::Display,
            SettingType::LightSensor,
        ]
    );
    let registrars: Vec<Name> = prepared.registrants.iter().map(|r| r.registrar).collect();
    assert_eq!(registrars, ["a", "display"]);
    assert!(!prepared.is_service);
    assert_eq!(prepared.storage_factory, 7);
    assert_eq!(prepared.policy_storage, [PolicyType::Audio]);
    assert_eq!(prepared.handlers.len(), 15);
    assert!(prepared.handlers[5].initialize_storage);
    assert!(!prepared.handlers[0].initialize_storage);

    // Every registrant can then be registered.
    let steps = create_environment(
        &prepared.settings,
        &prepared.registrants,
        &prepared.policies,
        &prepared.agent_blueprints,
        &prepared.resource_monitors,
    );
    assert_eq!(steps.register, [true, true]);
}

#[test]
fn a_service_is_discoverable() {
    assert!(Builder::new(0).prepare_env(Runtime::Service, &registrant_of).is_service);
}

#[test]
fn configuration_is_a_base_for_what_follows() {
    let builder = Builder::new(0)
        .configuration(from_services(&[SettingType::Audio]))
        .policies(&[])
        .flags(&[]);
    let configuration = builder.configuration.as_ref().unwrap();
    assert_eq!(elements(&configuration.fidl_interfaces), [Interface::Audio]);
    assert_eq!(configuration.policies.len(), 0);
    assert_eq!(configuration.controller_flags.len(), 0);
    let prepared = prepare(
        builder
            .flags(&[ControllerFlag::ExternalBrightnessControl])
            .policies(&[PolicyType::Audio])
            .fidl_interfaces(&[Interface::Light]),
    );
    assert_eq!(prepared.handlers[5].controller, Controller::DataWithExternalBrightness);
    assert_eq!(elements(&prepared.policies), [PolicyType::Audio]);
    assert_eq!(elements(&prepared.agent_types), [AgentType { id: 4 }]);
    assert_eq!(prepared.registrants.len(), 1);
    assert_eq!(prepared.registrants[0].registrar, "other");
}

#[test]
fn the_last_handler_for_a_setting_counts() {
    let prepared = prepare(
        Builder::new(0)
            .handler(SettingType::Audio, "first")
            .handler(SettingType::Light, "light")
            .handler(SettingType::Audio, "second"),
    );
    assert_eq!(
        prepared.custom_handlers,
        [(SettingType::Audio, "second"), (SettingType::Light, "light")]
    );
}

#[test]
fn mapped_agents_take_the_place_of_given_ones() {
    let with_agents = || {
        Builder::new(0)
            .configuration(from_services(&[]))
            .agents(vec!["x"])
            .agents(vec!["y", "z"])
            .resource_monitors(vec!["m"])
            .event_subscribers(vec!["e"])
            .service("s")
    };
    let prepared = prepare(with_agents());
    assert_eq!(prepared.agent_blueprints, ["x", "y", "z"]);
    assert_eq!(prepared.resource_monitors, ["m"]);
    assert_eq!(prepared.event_subscriber_blueprints, ["e"]);
    assert_eq!(prepared.generate_service, Some("s"));

    let map: fn(AgentType) -> Name = |agent_type| {
        assert_eq!(agent_type, AgentType { id: 4 });
        "mapped"
    };
    assert_eq!(prepare(with_agents().agent_mapping(map)).agent_blueprints, ["mapped"]);
}

#[test]
fn environments_are_created_in_steps() {
    let settings = IdSet::from_slice(&[SettingType::Audio, SettingType::Light]);
    let registrants = vec![
        registrant("a", &[SettingType::Audio]),
        registrant("b", &[SettingType::Audio, SettingType::Power]),
        registrant("c", &[]),
    ];
    let policies = IdSet::from_slice(&[PolicyType::Audio]);
    let blueprints = vec!["x", "y"];
    let steps = create_environment(&settings, &registrants, &policies, &blueprints, &vec![]);
    assert!(!steps.monitored);
    assert_eq!(elements(&steps.setting_proxies), [SettingType::Audio, SettingType::Light]);
    assert_eq!(
        elements(&steps.entities),
        [Entity::Handler(SettingType::Audio), Entity::Handler(SettingType::Light)]
    );
    assert_eq!(steps.policy_proxies, [PolicyType::Audio]);
    // Only those whose dependencies are there.
    assert_eq!(steps.register, [true, false, true]);
    // Storage always comes first.
    assert_eq!(
        steps.agents,
        [AgentSource::Storage, AgentSource::Blueprint(0), AgentSource::Blueprint(1)]
    );
    assert_eq!(
        steps.lifespans,
        [
            LifespanRun { lifespan: Lifespan::Initialization, sequential: true, required: true },
            LifespanRun { lifespan: Lifespan::Service, sequential: false, required: false },
        ]
    );

    let light = IdSet::from_slice(&[SettingType::Light]);
    let steps = create_environment(&light, &registrants, &policies, &vec![], &vec!["m"]);
    assert!(steps.monitored);
    assert!(steps.policy_proxies.is_empty());
    assert_eq!(PolicyType::Audio.setting_type(), SettingType::Audio);
}

#[test]
fn sets_hold_each_element_once() {
    let mut set = IdSet::from_slice(&[SettingType::Audio, SettingType::Light, SettingType::Audio]);
    assert_eq!(elements(&set), [SettingType::Audio, SettingType::Light]);
    set.insert(SettingType::Light);
    set.insert(SettingType::Power);
    set.remove(&SettingType::Audio);
    set.remove(&SettingType::Setup);
    assert_eq!(set.len(), 2);
    assert!(set.contains(&SettingType::Power) && !set.contains(&SettingType::Audio));
    set.insert_all(&[SettingType::Audio, SettingType::Power]);
    assert_eq!(set.len(), 3);
    assert_eq!(elements(&set.clone()), elements(&set));
}

#[test]
fn sets_are_equal_in_any_order() {
    let a = IdSet::from_slice(&[SettingType::Audio, SettingType::Light]);
    let b = IdSet::from_slice(&[SettingType::Light, SettingType::Audio]);
    let c = IdSet::from_slice(&[SettingType::Light]);
    assert!(a == b);
    assert!(a != c && c != a);
    assert!(c.is_subset(&a) && !a.is_subset(&c));
    assert!(
        EnabledServicesConfiguration::with_services(a.clone())
            == EnabledServicesConfiguration::with_services(b)
    );
    assert!(
        EnabledServicesConfiguration::with_services(a)
            != EnabledServicesConfiguration::with_services(c)
    );
    let enabled = EnabledPoliciesConfiguration::with_policies(IdSet::from_slice(&[
        PolicyType::Audio,
    ]));
    assert!(enabled != EnabledPoliciesConfiguration::with_policies(IdSet::new()));
    assert_eq!(enabled, enabled.clone());
}

#[test]
fn default_configurations_are_empty() {
    assert_eq!(AgentConfiguration::default().agent_types.len(), 0);
    assert_eq!(ServiceFlags::default().controller_flags.len(), 0);
    let default = ServiceConfiguration::default();
    assert_eq!(default, default.clone());
    let mut flagged = ServiceConfiguration::default();
    flagged.set_controller_flags(IdSet::from_slice(&[ControllerFlag::ExternalBrightnessControl]));
    assert!(flagged != default);
    assert_eq!(
        default,
        ServiceConfiguration::from(
            AgentConfiguration::default(),
            EnabledServicesConfiguration::with_services(IdSet::new()),
            EnabledPoliciesConfiguration::with_policies(IdSet::new()),
            ServiceFlags::default(),
        )
    );
}

#[test]
fn default_timings() {
    assert_eq!(DEFAULT_TEARDOWN_TIMEOUT_SEC, 5);
    assert_eq!(DEFAULT_SETTING_PROXY_MAX_ATTEMPTS, 3);
    assert_eq!(DEFAULT_SETTING_PROXY_RESPONSE_TIMEOUT_MS, 10_000);
}
