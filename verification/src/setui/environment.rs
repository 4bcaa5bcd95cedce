//! Bringing up the environment of the settings service.

use crate::setui::base::{
    AgentType, ControllerFlag, Dependency, Entity, Interface, InterfaceFlags, PolicyType,
    SettingType,
};
use crate::setui::id_set::{Id, IdSet};
use vstd::prelude::*;

verus! {

/// The duration, in seconds, that a proxy waits after the last request before initiating the
/// teardown of the controller. If a request is received before the timeout triggers, then the
/// timeout will be canceled.
pub const DEFAULT_TEARDOWN_TIMEOUT_SEC: i64 = 5;

pub const DEFAULT_SETTING_PROXY_MAX_ATTEMPTS: u64 = 3;

pub const DEFAULT_SETTING_PROXY_RESPONSE_TIMEOUT_MS: i64 = 10_000;

/// Runtime defines where the environment will exist. Service is meant for production environments
/// and will hydrate components to be discoverable as an environment service. Nested creates a
/// service only usable in the scope of a test.
#[derive(Clone, Copy, Debug, PartialEq, Eq, Structural)]
pub enum Runtime {
    Service,
    Nested,
}

#[derive(Clone, Debug)]
pub struct AgentConfiguration {
    pub agent_types: IdSet<AgentType>,
}

impl Default for AgentConfiguration {
    fn default() -> (r: Self)
        ensures
            r.agent_types.wf(),
            r.agent_types@ == Set::<AgentType>::empty(),
    {
        AgentConfiguration { agent_types: IdSet::new() }
    }
}

#[derive(Clone, Debug)]
pub struct EnabledServicesConfiguration {
    pub services: IdSet<SettingType>,
}

impl PartialEq for EnabledServicesConfiguration {
    fn eq(&self, other: &Self) -> (r: bool) {
        self.services == other.services
    }
}

impl vstd::std_specs::cmp::PartialEqSpecImpl for EnabledServicesConfiguration {
    open spec fn obeys_eq_spec() -> bool {
        true
    }

    open spec fn eq_spec(&self, other: &Self) -> bool {
        self.services@ == other.services@
    }
}

impl EnabledServicesConfiguration {
    pub fn with_services(services: IdSet<SettingType>) -> (r: Self)
        ensures
            r.services == services,
    {
        Self { services }
    }
}

#[derive(Clone, Debug)]
pub struct EnabledPoliciesConfiguration {
    pub policies: IdSet<PolicyType>,
}

impl PartialEq for EnabledPoliciesConfiguration {
    fn eq(&self, other: &Self) -> (r: bool) {
        self.policies == other.policies
    }
}

impl vstd::std_specs::cmp::PartialEqSpecImpl for EnabledPoliciesConfiguration {
    open spec fn obeys_eq_spec() -> bool {
        true
    }

    open spec fn eq_spec(&self, other: &Self) -> bool {
        self.policies@ == other.policies@
    }
}

impl EnabledPoliciesConfiguration {
    pub fn with_policies(policies: IdSet<PolicyType>) -> (r: Self)
        ensures
            r.policies == policies,
    {
        Self { policies }
    }
}

#[derive(Clone, Debug)]
pub struct ServiceFlags {
    pub controller_flags: IdSet<ControllerFlag>,
}

impl Default for ServiceFlags {
    fn default() -> (r: Self)
        ensures
            r.controller_flags.wf(),
            r.controller_flags@ == Set::<ControllerFlag>::empty(),
    {
        ServiceFlags { controller_flags: IdSet::new() }
    }
}

#[derive(Clone, Debug)]
pub struct ServiceConfiguration {
    pub agent_types: IdSet<AgentType>,
    pub fidl_interfaces: IdSet<Interface>,
    pub policies: IdSet<PolicyType>,
    pub controller_flags: IdSet<ControllerFlag>,
}

/// The display interface without the light sensor.
pub open spec fn display_base() -> Interface {
    Interface::Display(InterfaceFlags { base: true, light_sensor: false })
}

/// The light sensor's part of the display interface.
pub open spec fn display_light_sensor() -> Interface {
    Interface::Display(InterfaceFlags { base: false, light_sensor: true })
}

/// The whole display interface.
pub open spec fn display_all() -> Interface {
    Interface::Display(InterfaceFlags { base: true, light_sensor: true })
}

/// The interfaces with both parts of the display interface, where they are there, made one.
pub open spec fn consolidated(interfaces: Set<Interface>) -> Set<Interface> {
    if interfaces.contains(display_base()) && interfaces.contains(display_light_sensor()) {
        interfaces.remove(display_light_sensor()).remove(display_base()).insert(display_all())
    } else {
        interfaces
    }
}

/// The interfaces over which the settings are served.
pub open spec fn interfaces_of(settings: Set<SettingType>) -> Set<Interface> {
    settings.map(|setting_type: SettingType| Interface::of(setting_type))
}

/// Making the parts of the display interface one a second time changes nothing, and the parts do
/// not both remain.
pub proof fn law_consolidated_once(interfaces: Set<Interface>)
    ensures
        consolidated(consolidated(interfaces)) == consolidated(interfaces),
        !(consolidated(interfaces).contains(display_base()) && consolidated(interfaces).contains(
            display_light_sensor(),
        )),
{
}

impl Default for ServiceConfiguration {
    fn default() -> (r: Self)
        ensures
            r.wf(),
            r.agent_types@ == Set::<AgentType>::empty(),
            r.agent_types.elements().len() == 0,
            r.fidl_interfaces@ == Set::<Interface>::empty(),
            r.fidl_interfaces.elements().len() == 0,
            r.policies@ == Set::<PolicyType>::empty(),
            r.controller_flags@ == Set::<ControllerFlag>::empty(),
    {
        ServiceConfiguration {
            agent_types: IdSet::new(),
            fidl_interfaces: IdSet::new(),
            policies: IdSet::new(),
            controller_flags: IdSet::new(),
        }
    }
}

impl PartialEq for ServiceConfiguration {
    fn eq(&self, other: &Self) -> (r: bool) {
        self.agent_types == other.agent_types && self.fidl_interfaces == other.fidl_interfaces
            && self.policies == other.policies && self.controller_flags == other.controller_flags
    }
}

impl vstd::std_specs::cmp::PartialEqSpecImpl for ServiceConfiguration {
    open spec fn obeys_eq_spec() -> bool {
        true
    }

    open spec fn eq_spec(&self, other: &Self) -> bool {
        &&& self.agent_types@ == other.agent_types@
        &&& self.fidl_interfaces@ == other.fidl_interfaces@
        &&& self.policies@ == other.policies@
        &&& self.controller_flags@ == other.controller_flags@
    }
}

impl ServiceConfiguration {
    pub open spec fn wf(&self) -> bool {
        &&& self.agent_types.wf()
        &&& self.fidl_interfaces.wf()
        &&& self.policies.wf()
        &&& self.controller_flags.wf()
    }

    /// The configuration of a service with the given agents, settings, policies and flags.
    pub fn from(
        agent_types: AgentConfiguration,
        services: EnabledServicesConfiguration,
        policies: EnabledPoliciesConfiguration,
        flags: ServiceFlags,
    ) -> (r: Self)
        requires
            agent_types.agent_types.wf(),
            services.services.wf(),
            policies.policies.wf(),
            flags.controller_flags.wf(),
        ensures
            r.wf(),
            r.agent_types == agent_types.agent_types,
            r.fidl_interfaces@ == consolidated(interfaces_of(services.services@)),
            r.policies == policies.policies,
            r.controller_flags == flags.controller_flags,
    {
        let mut interfaces: IdSet<Interface> = IdSet::new();
        let ghost settings = services.services.elements();
        let mut i: usize = 0;
        assert(interfaces@ =~= interfaces_of(settings.take(0).to_set()));
        while i < services.services.len()
            invariant
                i <= settings.len(),
                settings == services.services.elements(),
                interfaces.wf(),
                interfaces@ == interfaces_of(settings.take(i as int).to_set()),
            decreases settings.len() - i,
        {
            let setting_type = services.services.get(i);
            interfaces.insert(Interface::from_setting(setting_type));
            proof {
                let f = |s: SettingType| Interface::of(s);
                let a = settings.take(i as int);
                let b = settings.take(i + 1);
                assert(b =~= a.push(setting_type));
                assert forall|x: Interface| interfaces_of(b.to_set()).contains(x)
                    == interfaces_of(a.to_set()).insert(Interface::of(setting_type)).contains(x) by {
                    if interfaces_of(a.to_set()).contains(x) {
                        let s = choose|s: SettingType| a.to_set().contains(s) && f(s) == x;
                        let k = a.index_of(s);
                        assert(b[k] == s);
                        assert(b.to_set().contains(s));
                    }
                    if x == Interface::of(setting_type) {
                        assert(b[i as int] == setting_type);
                        assert(b.to_set().contains(setting_type));
                        assert(f(setting_type) == x);
                    }
                    if interfaces_of(b.to_set()).contains(x) {
                        let s = choose|s: SettingType| b.to_set().contains(s) && f(s) == x;
                        let k = b.index_of(s);
                        if k < i {
                            assert(a[k] == s);
                            assert(a.to_set().contains(s));
                        }
                    }
                }
                assert(interfaces@ =~= interfaces_of(b.to_set()));
            }
            i += 1;
        }
        assert(settings.take(i as int) =~= settings);
        let mut return_val = ServiceConfiguration {
            agent_types: agent_types.agent_types,
            fidl_interfaces: IdSet::new(),
            policies: policies.policies,
            controller_flags: flags.controller_flags,
        };
        return_val.set_fidl_interfaces(interfaces);
        return_val
    }

    /// Sets the interfaces, with the parts of the display interface made one.
    pub fn set_fidl_interfaces(&mut self, interfaces: IdSet<Interface>)
        requires
            old(self).wf(),
            interfaces.wf(),
        ensures
            final(self).wf(),
            final(self).fidl_interfaces@ == consolidated(interfaces@),
            final(self).agent_types == old(self).agent_types,
            final(self).policies == old(self).policies,
            final(self).controller_flags == old(self).controller_flags,
    {
        let mut interfaces = interfaces;
        let base = Interface::Display(InterfaceFlags { base: true, light_sensor: false });
        let light_sensor = Interface::Display(InterfaceFlags { base: false, light_sensor: true });
        if interfaces.contains(&light_sensor) && interfaces.contains(&base) {
            interfaces.remove(&light_sensor);
            interfaces.remove(&base);
            interfaces.insert(
                Interface::Display(InterfaceFlags { base: true, light_sensor: true }),
            );
        }
        self.fidl_interfaces = interfaces;
    }

    /// Sets the policies that are enabled.
    pub fn set_policies(&mut self, policies: IdSet<PolicyType>)
        requires
            old(self).wf(),
            policies.wf(),
        ensures
            final(self).wf(),
            *final(self) == (ServiceConfiguration { policies, ..*old(self) }),
    {
        self.policies = policies;
    }

    /// Sets the flags of the controllers.
    pub fn set_controller_flags(&mut self, controller_flags: IdSet<ControllerFlag>)
        requires
            old(self).wf(),
            controller_flags.wf(),
        ensures
            final(self).wf(),
            *final(self) == (ServiceConfiguration { controller_flags, ..*old(self) }),
    {
        self.controller_flags = controller_flags;
    }
}

/// Something that is registered with the service when what it depends on is there.
#[derive(Debug)]
pub struct Registrant<H> {
    pub registrar: H,
    pub dependencies: Vec<Dependency>,
}

/// The setting whose handler a dependency is on.
pub open spec fn needed(dependency: Dependency) -> SettingType {
    match dependency {
        Dependency::Entity(Entity::Handler(setting_type)) => setting_type,
    }
}

impl<H> Registrant<H> {
    /// Whether the registrant depends on the handler of a setting.
    pub open spec fn needs(self, setting_type: SettingType) -> bool {
        exists|i: int|
            0 <= i < self.dependencies@.len() && needed(#[trigger] self.dependencies@[i])
                == setting_type
    }

    /// Whether everything that the registrant depends on is there.
    pub open spec fn is_fulfilled(self, entities: Set<Entity>) -> bool {
        forall|i: int|
            0 <= i < self.dependencies@.len() ==> entities.contains(
                Entity::Handler(needed(#[trigger] self.dependencies@[i])),
            )
    }

    fn fulfilled(&self, entities: &IdSet<Entity>) -> (r: bool)
        ensures
            r == self.is_fulfilled(entities@),
    {
        let mut i: usize = 0;
        while i < self.dependencies.len()
            invariant
                i <= self.dependencies.len(),
                forall|j: int|
                    0 <= j < i ==> entities@.contains(
                        Entity::Handler(needed(#[trigger] self.dependencies@[j])),
                    ),
            decreases self.dependencies.len() - i,
        {
            let Dependency::Entity(entity) = self.dependencies[i];
            if !entities.contains(&entity) {
                assert(Entity::Handler(needed(self.dependencies@[i as int])) == entity);
                return false;
            }
            i += 1;
        }
        true
    }
}

/// What handles a setting.
#[derive(Clone, Copy, Debug, PartialEq, Eq, Structural)]
pub enum Controller {
    /// A controller that stores nothing.
    Plain,
    /// A controller that stores its data.
    Data,
    /// A controller that stores its data, of a display whose brightness is controlled elsewhere.
    DataWithExternalBrightness,
}

/// How a setting is to be handled.
#[derive(Clone, Copy, Debug, PartialEq, Eq, Structural)]
pub struct HandlerRegistration {
    pub setting_type: SettingType,
    /// Whether storage has to be initialized for the controller first.
    pub initialize_storage: bool,
    pub controller: Controller,
}

/// The settings in the order in which their handlers are registered.
pub open spec fn registration_order() -> Seq<SettingType> {
    seq![
        SettingType::Power,
        SettingType::Accessibility,
        SettingType::Account,
        SettingType::Audio,
        SettingType::Device,
        SettingType::Display,
        SettingType::Light,
        SettingType::LightSensor,
        SettingType::Input,
        SettingType::Intl,
        SettingType::DoNotDisturb,
        SettingType::FactoryReset,
        SettingType::NightMode,
        SettingType::Privacy,
        SettingType::Setup,
    ]
}

/// The controller of a setting.
pub open spec fn controller_of(setting_type: SettingType, flags: Set<ControllerFlag>) -> Controller {
    match setting_type {
        SettingType::Power | SettingType::Account | SettingType::Device
        | SettingType::LightSensor => Controller::Plain,
        SettingType::Display => if flags.contains(ControllerFlag::ExternalBrightnessControl) {
            Controller::DataWithExternalBrightness
        } else {
            Controller::Data
        },
        _ => Controller::Data,
    }
}

/// How a setting is handled. Every setting gets a handler, but storage only if it is enabled.
pub open spec fn registration_of(
    setting_type: SettingType,
    components: Set<SettingType>,
    flags: Set<ControllerFlag>,
) -> HandlerRegistration {
    HandlerRegistration {
        setting_type,
        initialize_storage: components.contains(setting_type),
        controller: controller_of(setting_type, flags),
    }
}

/// Every setting is registered once.
pub proof fn law_every_setting_is_registered_once(setting_type: SettingType)
    ensures
        registration_order().no_duplicates(),
        registration_order().contains(setting_type),
{
    let order = registration_order();
    let i = match setting_type {
        SettingType::Power => 0int,
        SettingType::Accessibility => 1,
        SettingType::Account => 2,
        SettingType::Audio => 3,
        SettingType::Device => 4,
        SettingType::Display => 5,
        SettingType::Light => 6,
        SettingType::LightSensor => 7,
        SettingType::Input => 8,
        SettingType::Intl => 9,
        SettingType::DoNotDisturb => 10,
        SettingType::FactoryReset => 11,
        SettingType::NightMode => 12,
        SettingType::Privacy => 13,
        SettingType::Setup => 14,
    };
    assert(order[i] == setting_type);
}

fn register_handler(
    registrations: &mut Vec<HandlerRegistration>,
    components: &IdSet<SettingType>,
    setting_type: SettingType,
    controller: Controller,
)
    ensures
        final(registrations)@ == old(registrations)@.push(
            (HandlerRegistration {
                setting_type,
                initialize_storage: components@.contains(setting_type),
                controller,
            }),
        ),
{
    let initialize_storage = components.contains(&setting_type);
    registrations.push(HandlerRegistration { setting_type, initialize_storage, controller });
}

/// The handlers of all settings.
pub fn get_configuration_handlers(
    components: &IdSet<SettingType>,
    controller_flags: &IdSet<ControllerFlag>,
) -> (r: Vec<HandlerRegistration>)
    ensures
        r@ == registration_order().map_values(
            |setting_type: SettingType|
                registration_of(setting_type, components@, controller_flags@),
        ),
{
    let mut r: Vec<HandlerRegistration> = Vec::new();
    // Power
    register_handler(&mut r, components, SettingType::Power, Controller::Plain);
    // Accessibility
    register_handler(&mut r, components, SettingType::Accessibility, Controller::Data);
    // Account
    register_handler(&mut r, components, SettingType::Account, Controller::Plain);
    // Audio
    register_handler(&mut r, components, SettingType::Audio, Controller::Data);
    // Device
    register_handler(&mut r, components, SettingType::Device, Controller::Plain);
    // Display
    let display = if controller_flags.contains(&ControllerFlag::ExternalBrightnessControl) {
        Controller::DataWithExternalBrightness
    } else {
        Controller::Data
    };
    register_handler(&mut r, components, SettingType::Display, display);
    // Light
    register_handler(&mut r, components, SettingType::Light, Controller::Data);
    // Light sensor
    register_handler(&mut r, components, SettingType::LightSensor, Controller::Plain);
    // Input
    register_handler(&mut r, components, SettingType::Input, Controller::Data);
    // Intl
    register_handler(&mut r, components, SettingType::Intl, Controller::Data);
    // Do not disturb
    register_handler(&mut r, components, SettingType::DoNotDisturb, Controller::Data);
    // Factory Reset
    register_handler(&mut r, components, SettingType::FactoryReset, Controller::Data);
    // Night mode
    register_handler(&mut r, components, SettingType::NightMode, Controller::Data);
    // Privacy
    register_handler(&mut r, components, SettingType::Privacy, Controller::Data);
    // Setup
    register_handler(&mut r, components, SettingType::Setup, Controller::Data);
    assert(r@ =~= registration_order().map_values(
        |setting_type: SettingType| registration_of(setting_type, components@, controller_flags@),
    ));
    r
}

/// The [EnvironmentBuilder] aggregates the parameters surrounding an environment and ultimately
/// prepares an environment based on them. `T` gives access to storage. `H` stands for what is
/// handed on as it is: handlers, blueprints, monitors and the like.
pub struct EnvironmentBuilder<T, H, F> {
    pub configuration: Option<ServiceConfiguration>,
    pub agent_blueprints: Vec<H>,
    pub agent_mapping_func: Option<F>,
    pub event_subscriber_blueprints: Vec<H>,
    pub storage_factory: T,
    pub generate_service: Option<H>,
    pub registrants: Vec<Registrant<H>>,
    pub settings: Vec<SettingType>,
    /// The custom handlers, at most one for each setting.
    pub handlers: Vec<(SettingType, H)>,
    pub resource_monitors: Vec<H>,
}

/// The handler for a setting among `handlers`, if there is one.
pub open spec fn handler_for<H>(handlers: Seq<(SettingType, H)>, setting_type: SettingType) -> Option<H> {
    if exists|i: int| 0 <= i < handlers.len() && (#[trigger] handlers[i]).0 == setting_type {
        Some(
            handlers[choose|i: int|
                0 <= i < handlers.len() && (#[trigger] handlers[i]).0 == setting_type].1,
        )
    } else {
        None
    }
}

/// Whether there is at most one handler for each setting.
pub open spec fn handlers_distinct<H>(handlers: Seq<(SettingType, H)>) -> bool {
    forall|i: int, j: int|
        0 <= i < j < handlers.len() ==> (#[trigger] handlers[i]).0 != (#[trigger] handlers[j]).0
}

/// Whether a registrant among `registrants` depends on the handler of a setting.
pub open spec fn any_needs<H>(registrants: Seq<Registrant<H>>, setting_type: SettingType) -> bool {
    exists|i: int| 0 <= i < registrants.len() && (#[trigger] registrants[i]).needs(setting_type)
}

/// What is needed to create an environment.
pub struct PreparedEnvironment<T, H> {
    /// Whether the environment is discoverable as a service: its interfaces are then in a
    /// directory of their own, and it can be inspected.
    pub is_service: bool,
    pub settings: IdSet<SettingType>,
    pub policies: IdSet<PolicyType>,
    pub registrants: Vec<Registrant<H>>,
    /// The handlers of all settings.
    pub handlers: Vec<HandlerRegistration>,
    /// The handlers that take the place of those.
    pub custom_handlers: Vec<(SettingType, H)>,
    /// The policies that storage has to be initialized for.
    pub policy_storage: Vec<PolicyType>,
    /// The agents that storage has to be initialized for.
    pub agent_types: IdSet<AgentType>,
    pub agent_blueprints: Vec<H>,
    pub resource_monitors: Vec<H>,
    pub event_subscriber_blueprints: Vec<H>,
    pub generate_service: Option<H>,
    pub storage_factory: T,
}

impl<T, H, F: Fn(AgentType) -> H> EnvironmentBuilder<T, H, F> {
    pub open spec fn wf(&self) -> bool {
        &&& self.configuration matches Some(configuration) ==> configuration.wf()
        &&& handlers_distinct(self.handlers@)
    }

    pub open spec fn interfaces(&self) -> Set<Interface> {
        match self.configuration {
            Some(configuration) => configuration.fidl_interfaces@,
            None => Set::empty(),
        }
    }

    pub open spec fn enabled_policies(&self) -> Set<PolicyType> {
        match self.configuration {
            Some(configuration) => configuration.policies@,
            None => Set::empty(),
        }
    }

    pub open spec fn enabled_flags(&self) -> Set<ControllerFlag> {
        match self.configuration {
            Some(configuration) => configuration.controller_flags@,
            None => Set::empty(),
        }
    }

    pub open spec fn agent_types(&self) -> Seq<AgentType> {
        match self.configuration {
            Some(configuration) => configuration.agent_types.elements(),
            None => Seq::empty(),
        }
    }

    pub open spec fn interface_list(&self) -> Seq<Interface> {
        match self.configuration {
            Some(configuration) => configuration.fidl_interfaces.elements(),
            None => Seq::empty(),
        }
    }

    /// Whether nothing but the configuration differs from `before`.
    pub open spec fn only_configuration_differs(&self, before: &Self) -> bool {
        *self == (EnvironmentBuilder { configuration: self.configuration, ..*before })
    }

    pub fn new(storage_factory: T) -> (r: Self)
        ensures
            r.wf(),
            r.configuration is None,
            r.agent_blueprints@.len() == 0,
            r.agent_mapping_func is None,
            r.event_subscriber_blueprints@.len() == 0,
            r.storage_factory == storage_factory,
            r.generate_service is None,
            r.registrants@.len() == 0,
            r.settings@.len() == 0,
            r.handlers@.len() == 0,
            r.resource_monitors@.len() == 0,
    {
        EnvironmentBuilder {
            configuration: None,
            agent_blueprints: Vec::new(),
            agent_mapping_func: None,
            event_subscriber_blueprints: Vec::new(),
            storage_factory,
            generate_service: None,
            registrants: Vec::new(),
            settings: Vec::new(),
            handlers: Vec::new(),
            resource_monitors: Vec::new(),
        }
    }

    /// A handler to be used for a setting in place of the configured one.
    pub fn handler(self, setting_type: SettingType, generate_handler: H) -> (r: Self)
        requires
            self.wf(),
        ensures
            r.wf(),
            r == (EnvironmentBuilder { handlers: r.handlers, ..self }),
            forall|other: SettingType| #[trigger]
                handler_for(r.handlers@, other) == if other == setting_type {
                    Some(generate_handler)
                } else {
                    handler_for(self.handlers@, other)
                },
    {
        let mut builder = self;
        let ghost before = self.handlers@;
        let mut i: usize = 0;
        while i < builder.handlers.len()
            invariant
                i <= builder.handlers.len(),
                builder == self,
                self.wf(),
                before == self.handlers@,
                forall|j: int| 0 <= j < i ==> (#[trigger] before[j]).0 != setting_type,
            decreases builder.handlers.len() - i,
        {
            if builder.handlers[i].0 == setting_type {
                builder.handlers.set(i, (setting_type, generate_handler));
                proof {
                    let after = builder.handlers@;
                    lemma_handler_set(
                        before,
                        i as int,
                        setting_type,
                        generate_handler,
                        setting_type,
                    );
                    assert forall|other: SettingType| #[trigger]
                        handler_for(after, other) == if other == setting_type {
                            Some(generate_handler)
                        } else {
                            handler_for(before, other)
                        } by {
                        lemma_handler_set(before, i as int, setting_type, generate_handler, other);
                    }
                }
                return builder;
            }
            i += 1;
        }
        builder.handlers.push((setting_type, generate_handler));
        proof {
            let after = builder.handlers@;
            lemma_handler_pushed(before, setting_type, generate_handler, setting_type);
            assert forall|other: SettingType| #[trigger]
                handler_for(after, other) == if other == setting_type {
                    Some(generate_handler)
                } else {
                    handler_for(before, other)
                } by {
                lemma_handler_pushed(before, setting_type, generate_handler, other);
            }
        }
        builder
    }

    /// A service generator to be used as an overlay on the ServiceContext.
    pub fn service(self, generate_service: H) -> (r: Self)
        requires
            self.wf(),
        ensures
            r.wf(),
            r == (EnvironmentBuilder { generate_service: Some(generate_service), ..self }),
    {
        let mut builder = self;
        builder.generate_service = Some(generate_service);
        builder
    }

    /// A preset configuration to load preset parameters as a base.
    pub fn configuration(self, configuration: ServiceConfiguration) -> (r: Self)
        requires
            self.wf(),
            configuration.wf(),
        ensures
            r.wf(),
            r == (EnvironmentBuilder { configuration: Some(configuration), ..self }),
    {
        let mut builder = self;
        builder.configuration = Some(configuration);
        builder
    }

    /// Sets the interfaces over which settings are served.
    pub fn fidl_interfaces(self, interfaces: &[Interface]) -> (r: Self)
        requires
            self.wf(),
        ensures
            r.wf(),
            r.only_configuration_differs(&self),
            r.configuration is Some,
            r.interfaces() == consolidated(interfaces@.to_set()),
            r.agent_types() == self.agent_types(),
            r.enabled_policies() == self.enabled_policies(),
            r.enabled_flags() == self.enabled_flags(),
    {
        let mut builder = self;
        let mut configuration = match builder.configuration {
            Some(configuration) => configuration,
            None => ServiceConfiguration::default(),
        };
        configuration.set_fidl_interfaces(IdSet::from_slice(interfaces));
        builder.configuration = Some(configuration);
        assert(builder.agent_types() =~= self.agent_types());
        builder
    }

    /// Registrants to participate.
    pub fn registrants(self, registrants: Vec<Registrant<H>>) -> (r: Self)
        requires
            self.wf(),
        ensures
            r.wf(),
            r == (EnvironmentBuilder { registrants: r.registrants, ..self }),
            r.registrants@ == self.registrants@ + registrants@,
    {
        let mut builder = self;
        let mut registrants = registrants;
        builder.registrants.append(&mut registrants);
        builder
    }

    /// Setting types to participate.
    pub fn settings(self, settings: &[SettingType]) -> (r: Self)
        requires
            self.wf(),
        ensures
            r.wf(),
            r == (EnvironmentBuilder { settings: r.settings, ..self }),
            r.settings@ == self.settings@ + settings@,
    {
        let mut builder = self;
        let mut i: usize = 0;
        while i < settings.len()
            invariant
                i <= settings@.len(),
                builder == (EnvironmentBuilder { settings: builder.settings, ..self }),
                builder.settings@ == self.settings@ + settings@.take(i as int),
            decreases settings@.len() - i,
        {
            builder.settings.push(settings[i]);
            assert(builder.settings@ =~= self.settings@ + settings@.take(i + 1));
            i += 1;
        }
        assert(settings@.take(i as int) =~= settings@);
        builder
    }

    /// Sets policies types that are enabled.
    pub fn policies(self, policies: &[PolicyType]) -> (r: Self)
        requires
            self.wf(),
        ensures
            r.wf(),
            r.only_configuration_differs(&self),
            r.configuration is Some,
            r.enabled_policies() == policies@.to_set(),
            r.agent_types() == self.agent_types(),
            r.interfaces() == self.interfaces(),
            r.enabled_flags() == self.enabled_flags(),
    {
        let mut builder = self;
        let mut configuration = match builder.configuration {
            Some(configuration) => configuration,
            None => ServiceConfiguration::default(),
        };
        configuration.set_policies(IdSet::from_slice(policies));
        builder.configuration = Some(configuration);
        assert(builder.agent_types() =~= self.agent_types());
        builder
    }

    /// Setting types to participate with customized controllers.
    pub fn flags(self, controller_flags: &[ControllerFlag]) -> (r: Self)
        requires
            self.wf(),
        ensures
            r.wf(),
            r.only_configuration_differs(&self),
            r.configuration is Some,
            r.enabled_flags() == controller_flags@.to_set(),
            r.agent_types() == self.agent_types(),
            r.interfaces() == self.interfaces(),
            r.enabled_policies() == self.enabled_policies(),
    {
        let mut builder = self;
        let mut configuration = match builder.configuration {
            Some(configuration) => configuration,
            None => ServiceConfiguration::default(),
        };
        configuration.set_controller_flags(IdSet::from_slice(controller_flags));
        builder.configuration = Some(configuration);
        assert(builder.agent_types() =~= self.agent_types());
        builder
    }

    /// How to make the agents of the configured types. They then take the place of the given ones.
    pub fn agent_mapping(self, agent_mapping_func: F) -> (r: Self)
        requires
            self.wf(),
        ensures
            r.wf(),
            r == (EnvironmentBuilder { agent_mapping_func: Some(agent_mapping_func), ..self }),
    {
        let mut builder = self;
        builder.agent_mapping_func = Some(agent_mapping_func);
        builder
    }

    /// Agents to participate.
    pub fn agents(self, blueprints: Vec<H>) -> (r: Self)
        requires
            self.wf(),
        ensures
            r.wf(),
            r == (EnvironmentBuilder { agent_blueprints: r.agent_blueprints, ..self }),
            r.agent_blueprints@ == self.agent_blueprints@ + blueprints@,
    {
        let mut builder = self;
        let mut blueprints = blueprints;
        builder.agent_blueprints.append(&mut blueprints);
        builder
    }

    /// Resource monitors to participate.
    pub fn resource_monitors(self, monitors: Vec<H>) -> (r: Self)
        requires
            self.wf(),
        ensures
            r.wf(),
            r == (EnvironmentBuilder { resource_monitors: r.resource_monitors, ..self }),
            r.resource_monitors@ == self.resource_monitors@ + monitors@,
    {
        let mut builder = self;
        let mut monitors = monitors;
        builder.resource_monitors.append(&mut monitors);
        builder
    }

    /// Event subscribers to participate
    pub fn event_subscribers(self, subscribers: Vec<H>) -> (r: Self)
        requires
            self.wf(),
        ensures
            r.wf(),
            r == (EnvironmentBuilder {
                event_subscriber_blueprints: r.event_subscriber_blueprints,
                ..self
            }),
            r.event_subscriber_blueprints@ == self.event_subscriber_blueprints@ + subscribers@,
    {
        let mut builder = self;
        let mut subscribers = subscribers;
        builder.event_subscriber_blueprints.append(&mut subscribers);
        builder
    }

    /// Collects what the environment is created from. `registrant_of` makes the registrant of an
    /// interface. The settings are those that were asked for and those that a registrant depends
    /// on.
    pub fn prepare_env<G: Fn(Interface) -> Registrant<H>>(
        self,
        runtime: Runtime,
        registrant_of: &G,
    ) -> (r: PreparedEnvironment<T, H>)
        requires
            self.wf(),
            forall|interface: Interface| #[trigger]
                self.interface_list().contains(interface) ==> call_requires(
                    *registrant_of,
                    (interface,),
                ),
            self.agent_mapping_func matches Some(f) ==> forall|agent_type: AgentType| #[trigger]
                self.agent_types().contains(agent_type) ==> call_requires(f, (agent_type,)),
        ensures
            r.is_service == (runtime is Service),
            r.settings.wf(),
            r.policies.wf(),
            r.registrants@.len() == self.registrants@.len() + self.interface_list().len(),
            r.registrants@.take(self.registrants@.len() as int) == self.registrants@,
            forall|i: int|
                0 <= i < self.interface_list().len() ==> call_ensures(
                    *registrant_of,
                    (#[trigger] self.interface_list()[i],),
                    r.registrants@[self.registrants@.len() + i],
                ),
            forall|setting_type: SettingType| #[trigger]
                r.settings@.contains(setting_type) <==> (self.settings@.contains(setting_type)
                    || any_needs(r.registrants@, setting_type)),
            r.policies@ == self.enabled_policies(),
            r.handlers@ == registration_order().map_values(
                |setting_type: SettingType|
                    registration_of(setting_type, r.settings@, self.enabled_flags()),
            ),
            r.custom_handlers@ == self.handlers@,
            r.policy_storage@ == seq![PolicyType::Audio],
            r.agent_types.wf(),
            r.agent_types.elements() == self.agent_types(),
            match self.agent_mapping_func {
                Some(f) => {
                    &&& r.agent_blueprints@.len() == self.agent_types().len()
                    &&& forall|i: int|
                        0 <= i < r.agent_blueprints@.len() ==> call_ensures(
                            f,
                            (self.agent_types()[i],),
                            #[trigger] r.agent_blueprints@[i],
                        )
                },
                None => r.agent_blueprints@ == self.agent_blueprints@,
            },
            r.resource_monitors@ == self.resource_monitors@,
            r.event_subscriber_blueprints@ == self.event_subscriber_blueprints@,
            r.generate_service == self.generate_service,
            r.storage_factory == self.storage_factory,
    {
        let ghost given = self;
        let is_service = match runtime {
            Runtime::Service => true,
            Runtime::Nested => false,
        };
        let builder = self;
        let configuration = match builder.configuration {
            Some(configuration) => configuration,
            None => ServiceConfiguration::default(),
        };
        assert(configuration.agent_types.elements() =~= given.agent_types());
        assert(configuration.fidl_interfaces.elements() =~= given.interface_list());
        let mut registrants = builder.registrants;
        let mut interface_registrants = map_each(&configuration.fidl_interfaces, registrant_of);
        let ghost added = interface_registrants@;
        registrants.append(&mut interface_registrants);
        assert(registrants@ == given.registrants@ + added);
        let mut settings = IdSet::from_slice(builder.settings.as_slice());
        collect_dependencies(&mut settings, &registrants);
        assert forall|setting_type: SettingType| #[trigger]
            settings@.contains(setting_type) <==> (given.settings@.contains(setting_type)
                || any_needs(registrants@, setting_type)) by {
            assert(given.settings@.to_set().contains(setting_type) == given.settings@.contains(
                setting_type,
            ));
        }
        let handlers = get_configuration_handlers(&settings, &configuration.controller_flags);
        let agent_blueprints = match builder.agent_mapping_func {
            Some(agent_mapping_func) => map_each(&configuration.agent_types, &agent_mapping_func),
            None => builder.agent_blueprints,
        };
        let mut policy_storage: Vec<PolicyType> = Vec::new();
        policy_storage.push(PolicyType::Audio);
        assert(policy_storage@ =~= seq![PolicyType::Audio]);
        PreparedEnvironment {
            is_service,
            settings,
            policies: configuration.policies,
            registrants,
            handlers,
            custom_handlers: builder.handlers,
            policy_storage,
            agent_types: configuration.agent_types,
            agent_blueprints,
            resource_monitors: builder.resource_monitors,
            event_subscriber_blueprints: builder.event_subscriber_blueprints,
            generate_service: builder.generate_service,
            storage_factory: builder.storage_factory,
        }
    }
}

proof fn lemma_handler_set<H>(
    handlers: Seq<(SettingType, H)>,
    i: int,
    setting_type: SettingType,
    handler: H,
    other: SettingType,
)
    requires
        0 <= i < handlers.len(),
        handlers[i].0 == setting_type,
        handlers_distinct(handlers),
    ensures
        handlers_distinct(handlers.update(i, (setting_type, handler))),
        handler_for(handlers.update(i, (setting_type, handler)), other) == if other
            == setting_type {
            Some(handler)
        } else {
            handler_for(handlers, other)
        },
{
    let after = handlers.update(i, (setting_type, handler));
    assert forall|a: int, b: int| 0 <= a < b < after.len() implies (#[trigger] after[a]).0 != (
    #[trigger] after[b]).0 by {
        assert(handlers[a].0 != handlers[b].0);
    }
    if exists|j: int| 0 <= j < handlers.len() && (#[trigger] handlers[j]).0 == other {
        let j = choose|j: int| 0 <= j < handlers.len() && (#[trigger] handlers[j]).0 == other;
        assert(after[j].0 == other);
        let k = choose|k: int| 0 <= k < after.len() && (#[trigger] after[k]).0 == other;
        assert(k == j);
        if other == setting_type {
            assert(j == i);
        }
    } else {
        assert(forall|k: int| 0 <= k < after.len() ==> (#[trigger] after[k]).0 == handlers[k].0);
        assert(handlers[i].0 == setting_type);
    }
}

proof fn lemma_handler_pushed<H>(
    handlers: Seq<(SettingType, H)>,
    setting_type: SettingType,
    handler: H,
    other: SettingType,
)
    requires
        handlers_distinct(handlers),
        forall|j: int| 0 <= j < handlers.len() ==> (#[trigger] handlers[j]).0 != setting_type,
    ensures
        handlers_distinct(handlers.push((setting_type, handler))),
        handler_for(handlers.push((setting_type, handler)), other) == if other == setting_type {
            Some(handler)
        } else {
            handler_for(handlers, other)
        },
{
    let after = handlers.push((setting_type, handler));
    let n = handlers.len() as int;
    assert(after[n] == (setting_type, handler));
    assert(forall|k: int| 0 <= k < n ==> #[trigger] after[k] == handlers[k]);
    assert(handlers_distinct(after));
    if other == setting_type {
        let k = choose|k: int| 0 <= k < after.len() && (#[trigger] after[k]).0 == other;
        assert(after[n].0 == other);
        assert(k == n);
    } else if exists|j: int| 0 <= j < n && (#[trigger] handlers[j]).0 == other {
        let j = choose|j: int| 0 <= j < n && (#[trigger] handlers[j]).0 == other;
        assert(after[j].0 == other);
        let k = choose|k: int| 0 <= k < after.len() && (#[trigger] after[k]).0 == other;
        assert(k == j);
    } else {
        assert forall|k: int| 0 <= k < after.len() implies (#[trigger] after[k]).0 != other by {
            if k < n {
                assert(handlers[k].0 != other);
            }
        }
    }
}

// Adds the settings whose handlers the registrants depend on.
fn collect_dependencies<H>(settings: &mut IdSet<SettingType>, registrants: &Vec<Registrant<H>>)
    requires
        old(settings).wf(),
    ensures
        final(settings).wf(),
        forall|setting_type: SettingType| #[trigger]
            final(settings)@.contains(setting_type) <==> (old(settings)@.contains(setting_type)
                || any_needs(registrants@, setting_type)),
{
    let mut i: usize = 0;
    while i < registrants.len()
        invariant
            i <= registrants.len(),
            settings.wf(),
            forall|setting_type: SettingType| #[trigger]
                settings@.contains(setting_type) <==> (old(settings)@.contains(setting_type)
                    || any_needs(registrants@.take(i as int), setting_type)),
        decreases registrants.len() - i,
    {
        let ghost before = settings@;
        let ghost dependencies = registrants[i as int].dependencies@;
        let mut j: usize = 0;
        while j < registrants[i].dependencies.len()
            invariant
                i < registrants.len(),
                dependencies == registrants[i as int].dependencies@,
                j <= dependencies.len(),
                settings.wf(),
                forall|setting_type: SettingType| #[trigger]
                    settings@.contains(setting_type) <==> (before.contains(setting_type) || exists|
                        k: int,
                    |
                        0 <= k < j && needed(#[trigger] dependencies[k]) == setting_type),
            decreases dependencies.len() - j,
        {
            let Dependency::Entity(Entity::Handler(setting_type)) = registrants[i].dependencies[j];
            let ghost inner = settings@;
            settings.insert(setting_type);
            proof {
                assert(needed(dependencies[j as int]) == setting_type);
                assert forall|other: SettingType| #[trigger]
                    settings@.contains(other) <==> (before.contains(other) || exists|k: int|
                        0 <= k < j + 1 && needed(#[trigger] dependencies[k]) == other) by {
                    if inner.contains(other) && !before.contains(other) {
                        let k = choose|k: int|
                            0 <= k < j && needed(#[trigger] dependencies[k]) == other;
                        assert(needed(dependencies[k]) == other);
                    }
                }
            }
            j += 1;
        }
        proof {
            let a = registrants@.take(i as int);
            let b = registrants@.take(i + 1);
            assert(b[i as int] == registrants[i as int]);
            assert(forall|k: int| 0 <= k < i ==> #[trigger] a[k] == b[k]);
            assert forall|setting_type: SettingType| #[trigger]
                settings@.contains(setting_type) <==> (old(settings)@.contains(setting_type)
                    || any_needs(b, setting_type)) by {
                if any_needs(a, setting_type) {
                    let k = choose|k: int| 0 <= k < a.len() && (#[trigger] a[k]).needs(setting_type);
                    assert(b[k].needs(setting_type));
                }
                if any_needs(b, setting_type) {
                    let k = choose|k: int| 0 <= k < b.len() && (#[trigger] b[k]).needs(setting_type);
                    if k < i {
                        assert(a[k].needs(setting_type));
                    }
                }
                if registrants[i as int].needs(setting_type) {
                    assert(b[i as int].needs(setting_type));
                }
            }
        }
        i += 1;
    }
    assert(registrants@.take(i as int) =~= registrants@);
}

// What a function makes of each element.
fn map_each<T: Id, R, F: Fn(T) -> R>(ids: &IdSet<T>, f: &F) -> (r: Vec<R>)
    requires
        forall|id: T| #[trigger] ids.elements().contains(id) ==> call_requires(*f, (id,)),
    ensures
        r@.len() == ids.elements().len(),
        forall|i: int|
            0 <= i < r@.len() ==> call_ensures(*f, (ids.elements()[i],), #[trigger] r@[i]),
{
    let mut r: Vec<R> = Vec::new();
    let mut i: usize = 0;
    while i < ids.len()
        invariant
            i <= ids.elements().len(),
            r@.len() == i,
            forall|id: T| #[trigger] ids.elements().contains(id) ==> call_requires(*f, (id,)),
            forall|j: int|
                0 <= j < r@.len() ==> call_ensures(*f, (ids.elements()[j],), #[trigger] r@[j]),
        decreases ids.elements().len() - i,
    {
        let id = ids.get(i);
        assert(ids.elements().contains(id));
        r.push(f(id));
        i += 1;
    }
    r
}

/// An agent to register.
#[derive(Clone, Copy, Debug, PartialEq, Eq, Structural)]
pub enum AgentSource {
    /// The agent that gives access to storage.
    Storage,
    /// The blueprint at a position.
    Blueprint(usize),
}

/// When agents are run.
#[derive(Clone, Copy, Debug, PartialEq, Eq, Structural)]
pub enum Lifespan {
    Initialization,
    Service,
}

/// How the agents of a lifespan are run.
#[derive(Clone, Copy, Debug, PartialEq, Eq, Structural)]
pub struct LifespanRun {
    pub lifespan: Lifespan,
    pub sequential: bool,
    /// Whether the environment cannot be created when an agent fails.
    pub required: bool,
}

/// How an environment is created, in the order of the fields.
pub struct EnvironmentSteps {
    /// Whether resources are monitored.
    pub monitored: bool,
    /// The settings to create proxies for.
    pub setting_proxies: IdSet<SettingType>,
    /// What then runs in the environment.
    pub entities: IdSet<Entity>,
    /// The policies to create proxies for.
    pub policy_proxies: Vec<PolicyType>,
    /// Which of the registrants to register.
    pub register: Vec<bool>,
    /// The agents to register.
    pub agents: Vec<AgentSource>,
    /// The agents to run.
    pub lifespans: Vec<LifespanRun>,
}

/// The handlers of the settings.
pub open spec fn entities_of(settings: Set<SettingType>) -> Set<Entity> {
    Set::new(|entity: Entity| match entity {
        Entity::Handler(setting_type) => settings.contains(setting_type),
    })
}

/// Brings up the settings service environment.
///
/// This method generates the necessary infrastructure to support the settings service (handlers,
/// agents, etc.) and brings up the components necessary to support the components specified in the
/// components set. The service does not work without storage, so its agent always comes first.
pub fn create_environment<H>(
    components: &IdSet<SettingType>,
    registrants: &Vec<Registrant<H>>,
    policies: &IdSet<PolicyType>,
    agent_blueprints: &Vec<H>,
    resource_monitors: &Vec<H>,
) -> (r: EnvironmentSteps)
    requires
        components.wf(),
        policies.wf(),
    ensures
        r.monitored == (resource_monitors@.len() > 0),
        r.setting_proxies.wf(),
        r.setting_proxies.elements() == components.elements(),
        r.entities.wf(),
        r.entities@ == entities_of(components@),
        r.policy_proxies@ == policies.elements().filter(
            |policy: PolicyType| components@.contains(policy.setting()),
        ),
        r.register@ == registrants@.map_values(
            |registrant: Registrant<H>| registrant.is_fulfilled(entities_of(components@)),
        ),
        r.agents@ == seq![AgentSource::Storage] + Seq::new(
            agent_blueprints@.len(),
            |i: int| AgentSource::Blueprint(i as usize),
        ),
        r.lifespans@ == seq![
            LifespanRun { lifespan: Lifespan::Initialization, sequential: true, required: true },
            LifespanRun { lifespan: Lifespan::Service, sequential: false, required: false },
        ],
{
    let mut entities: IdSet<Entity> = IdSet::new();
    let mut i: usize = 0;
    assert(entities@ =~= entities_of(components.elements().take(0).to_set()));
    while i < components.len()
        invariant
            i <= components.elements().len(),
            entities.wf(),
            entities@ == entities_of(components.elements().take(i as int).to_set()),
        decreases components.elements().len() - i,
    {
        let setting_type = components.get(i);
        entities.insert(Entity::Handler(setting_type));
        proof {
            let a = components.elements().take(i as int);
            let b = components.elements().take(i + 1);
            assert(b =~= a.push(setting_type));
            assert forall|s: SettingType| b.to_set().contains(s) == a.to_set().insert(
                setting_type,
            ).contains(s) by {
                if a.contains(s) {
                    let k = a.index_of(s);
                    assert(b[k] == s);
                }
                if s == setting_type {
                    assert(b[i as int] == s);
                }
            }
            assert forall|e: Entity| entities@.contains(e) == entities_of(b.to_set()).contains(
                e,
            ) by {
                let Entity::Handler(s) = e;
                assert(b.to_set().contains(s) == a.to_set().insert(setting_type).contains(s));
            }
            assert(entities@ =~= entities_of(b.to_set()));
        }
        i += 1;
    }
    assert(components.elements().take(i as int) =~= components.elements());

    let mut policy_proxies: Vec<PolicyType> = Vec::new();
    let ghost wanted = |policy: PolicyType| components@.contains(policy.setting());
    let mut i: usize = 0;
    proof {
        reveal(Seq::filter);
        assert(policies.elements().take(0).filter(wanted) =~= Seq::empty());
    }
    while i < policies.len()
        invariant
            i <= policies.elements().len(),
            wanted == |policy: PolicyType| components@.contains(policy.setting()),
            policy_proxies@ == policies.elements().take(i as int).filter(wanted),
        decreases policies.elements().len() - i,
    {
        let policy_type = policies.get(i);
        let setting_type = policy_type.setting_type();
        if components.contains(&setting_type) {
            policy_proxies.push(policy_type);
        }
        proof {
            reveal(Seq::filter);
            let b = policies.elements().take(i + 1);
            assert(b.drop_last() =~= policies.elements().take(i as int));
            assert(b.last() == policy_type);
        }
        i += 1;
    }
    assert(policies.elements().take(i as int) =~= policies.elements());

    let mut register: Vec<bool> = Vec::new();
    let mut i: usize = 0;
    while i < registrants.len()
        invariant
            i <= registrants.len(),
            entities@ == entities_of(components@),
            register@ == registrants@.take(i as int).map_values(
                |registrant: Registrant<H>| registrant.is_fulfilled(entities_of(components@)),
            ),
        decreases registrants.len() - i,
    {
        let fulfilled = registrants[i].fulfilled(&entities);
        register.push(fulfilled);
        assert(register@ =~= registrants@.take(i + 1).map_values(
            |registrant: Registrant<H>| registrant.is_fulfilled(entities_of(components@)),
        ));
        i += 1;
    }
    assert(registrants@.take(i as int) =~= registrants@);

    let mut agents: Vec<AgentSource> = Vec::new();
    agents.push(AgentSource::Storage);
    let mut i: usize = 0;
    while i < agent_blueprints.len()
        invariant
            i <= agent_blueprints.len(),
            agents@ == seq![AgentSource::Storage] + Seq::new(
                i as nat,
                |k: int| AgentSource::Blueprint(k as usize),
            ),
        decreases agent_blueprints.len() - i,
    {
        agents.push(AgentSource::Blueprint(i));
        assert(agents@ =~= seq![AgentSource::Storage] + Seq::new(
            (i + 1) as nat,
            |k: int| AgentSource::Blueprint(k as usize),
        ));
        i += 1;
    }

    let mut lifespans: Vec<LifespanRun> = Vec::new();
    // Execute initialization agents sequentially
    lifespans.push(
        LifespanRun { lifespan: Lifespan::Initialization, sequential: true, required: true },
    );
    // Execute service agents concurrently
    lifespans.push(LifespanRun { lifespan: Lifespan::Service, sequential: false, required: false });
    assert(lifespans@ =~= seq![
        LifespanRun { lifespan: Lifespan::Initialization, sequential: true, required: true },
        LifespanRun { lifespan: Lifespan::Service, sequential: false, required: false },
    ]);
    EnvironmentSteps {
        monitored: resource_monitors.len() > 0,
        setting_proxies: components.clone(),
        entities,
        policy_proxies,
        register,
        agents,
        lifespans,
    }
}

/// In an environment with the settings that its registrants depend on, every registrant can be
/// registered.
pub proof fn law_every_prepared_registrant_is_registered<H>(
    registrants: Seq<Registrant<H>>,
    settings: Set<SettingType>,
    i: int,
)
    requires
        forall|setting_type: SettingType| #[trigger]
            any_needs(registrants, setting_type) ==> settings.contains(setting_type),
        0 <= i < registrants.len(),
    ensures
        registrants[i].is_fulfilled(entities_of(settings)),
{
    let registrant = registrants[i];
    assert forall|k: int| 0 <= k < registrant.dependencies@.len() implies entities_of(
        settings,
    ).contains(Entity::Handler(needed(#[trigger] registrant.dependencies@[k]))) by {
        let setting_type = needed(registrant.dependencies@[k]);
        assert(registrant.needs(setting_type));
        assert(any_needs(registrants, setting_type));
    }
}

} // verus!
