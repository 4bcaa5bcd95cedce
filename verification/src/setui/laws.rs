//! What holds of the settings service.

use crate::setui::base::{
    AgentType, ControllerFlag, Dependency, Entity, Interface, InterfaceFlags, PolicyType,
    SettingType,
};
use crate::setui::environment::{
    create_environment, get_configuration_handlers, AgentConfiguration,
    EnabledPoliciesConfiguration, EnabledServicesConfiguration, EnvironmentBuilder,
    EnvironmentSteps, HandlerRegistration, PreparedEnvironment, Registrant, Runtime,
    ServiceConfiguration, ServiceFlags,
};
use crate::setui::id_set::{Id, IdSet};
use vstd::prelude::*;

verus! {

/// After an element is added, the set contains it and what it contained before, and nothing else.
pub proof fn law_added_elements_are_contained<T: Id>(
    set: &mut IdSet<T>,
    value: T,
    other: T,
    before: bool,
    after: bool,
)
    requires
        call_ensures(IdSet::<T>::contains, (&*old(set), &other), before),
        call_ensures(IdSet::<T>::insert, (set, value), ()),
        call_ensures(IdSet::<T>::contains, (&*final(set), &other), after),
    ensures
        after == (before || other == value),
{
}

/// After an element is taken out, the set contains what it contained before, but for that element.
pub proof fn law_removed_elements_are_not_contained<T: Id>(
    set: &mut IdSet<T>,
    value: T,
    other: T,
    before: bool,
    after: bool,
)
    requires
        call_ensures(IdSet::<T>::contains, (&*old(set), &other), before),
        call_ensures(IdSet::<T>::remove, (set, &value), ()),
        call_ensures(IdSet::<T>::contains, (&*final(set), &other), after),
    ensures
        after == (before && other != value),
{
}

/// A set of given elements contains those and no others, whichever way it is made, and so does its
/// copy. A set that is new contains nothing.
pub proof fn law_sets_contain_what_they_are_made_of<T: Id>(
    values: &[T],
    set: IdSet<T>,
    copy: IdSet<T>,
    other: T,
    r: bool,
)
    requires
        call_ensures(IdSet::<T>::contains, (&copy, &other), r),
        call_ensures(IdSet::<T>::clone, (&set,), copy),
    ensures
        call_ensures(IdSet::<T>::from_slice, (values,), set) ==> (r <==> exists|i: int|
            0 <= i < values@.len() && #[trigger] values@[i] == other),
        call_ensures(IdSet::<T>::new, (), set) ==> !r,
{
    if call_ensures(IdSet::<T>::from_slice, (values,), set) {
        assert(set@.contains(other) == values@.to_set().contains(other));
        assert(values@.to_set().contains(other) == values@.contains(other));
    }
}

/// Adding many elements adds each of them, and nothing else.
pub proof fn law_all_elements_are_added<T: Id>(
    set: &mut IdSet<T>,
    values: &[T],
    other: T,
    before: bool,
    after: bool,
)
    requires
        call_ensures(IdSet::<T>::contains, (&*old(set), &other), before),
        call_ensures(IdSet::<T>::insert_all, (set, values), ()),
        call_ensures(IdSet::<T>::contains, (&*final(set), &other), after),
    ensures
        after <==> (before || exists|i: int| 0 <= i < values@.len() && #[trigger] values@[i] == other),
{
    assert(values@.to_set().contains(other) == values@.contains(other));
}

/// A set is a subset of another just when nothing is in it that is not in the other, and two sets
/// are equal just when each is a subset of the other.
pub proof fn law_subsets_are_contained<T: Id>(a: IdSet<T>, b: IdSet<T>, ab: bool, ba: bool, equal: bool)
    requires
        call_ensures(IdSet::<T>::is_subset, (&a, &b), ab),
        call_ensures(IdSet::<T>::is_subset, (&b, &a), ba),
        call_ensures(<IdSet<T> as PartialEq>::eq, (&a, &b), equal),
    ensures
        ab <==> forall|x: T| a.elements().contains(x) ==> #[trigger] b.elements().contains(x),
        equal == (ab && ba),
{
    if ab {
        assert forall|x: T| a.elements().contains(x) implies #[trigger] b.elements().contains(x) by {
            assert(a@.contains(x));
            assert(b@.contains(x));
        }
    } else {
        let x = choose|x: T| a@.contains(x) && !b@.contains(x);
        assert(a.elements().contains(x) && !b.elements().contains(x));
    }
    if ab && ba {
        assert(a@ =~= b@);
    }
}

/// The elements of a set are given one after the other, and each is contained. There are as many as
/// the set has.
pub proof fn law_elements_are_given_in_order<T: Id>(
    set: IdSet<T>,
    count: usize,
    i: usize,
    r: T,
    contained: bool,
)
    requires
        call_ensures(IdSet::<T>::len, (&set,), count),
        call_ensures(IdSet::<T>::get, (&set, i), r),
        call_ensures(IdSet::<T>::contains, (&set, &r), contained),
        i < count,
    ensures
        r == set.elements()[i as int],
        contained,
{
    assert(set.elements().contains(set.elements()[i as int]));
}

/// What nothing was configured for is empty.
pub proof fn law_nothing_is_configured_at_first(
    agents: AgentConfiguration,
    flags: ServiceFlags,
    configuration: ServiceConfiguration,
)
    ensures
        call_ensures(<AgentConfiguration as Default>::default, (), agents) ==> forall|x: AgentType|
            !agents.agent_types@.contains(x),
        call_ensures(<ServiceFlags as Default>::default, (), flags) ==> forall|x: ControllerFlag|
            !flags.controller_flags@.contains(x),
        call_ensures(<ServiceConfiguration as Default>::default, (), configuration) ==> {
            &&& forall|x: AgentType| !configuration.agent_types@.contains(x)
            &&& forall|x: Interface| !configuration.fidl_interfaces@.contains(x)
            &&& forall|x: PolicyType| !configuration.policies@.contains(x)
            &&& forall|x: ControllerFlag| !configuration.controller_flags@.contains(x)
        },
{
}

/// What is enabled is what was given, and enabled services and policies are told apart by what they
/// contain.
pub proof fn law_enabled_is_what_was_given(
    services: IdSet<SettingType>,
    policies: IdSet<PolicyType>,
    a: EnabledServicesConfiguration,
    b: EnabledServicesConfiguration,
    c: EnabledPoliciesConfiguration,
    d: EnabledPoliciesConfiguration,
    r: bool,
)
    ensures
        call_ensures(EnabledServicesConfiguration::with_services, (services,), a) ==> a.services
            == services,
        call_ensures(EnabledPoliciesConfiguration::with_policies, (policies,), c) ==> c.policies
            == policies,
        call_ensures(<EnabledServicesConfiguration as PartialEq>::eq, (&a, &b), r) ==> r == (
        a.services@ == b.services@),
        call_ensures(<EnabledPoliciesConfiguration as PartialEq>::eq, (&c, &d), r) ==> r == (
        c.policies@ == d.policies@),
{
}

/// Every setting is served over the interface of its own name, but for the light sensor, which is
/// the other part of the display interface. No two settings are served over the same.
pub proof fn law_settings_have_an_interface_of_their_own(
    a: SettingType,
    b: SettingType,
    ra: Interface,
    rb: Interface,
)
    requires
        call_ensures(Interface::from_setting, (a,), ra),
        call_ensures(Interface::from_setting, (b,), rb),
    ensures
        ra == rb ==> a == b,
        ra is Accessibility <==> a is Accessibility,
        ra is Account <==> a is Account,
        ra is Audio <==> a is Audio,
        ra is Device <==> a is Device,
        ra is Display <==> (a is Display || a is LightSensor),
        a is Display ==> (ra->Display_0).base && !(ra->Display_0).light_sensor,
        a is LightSensor ==> (ra->Display_0).light_sensor && !(ra->Display_0).base,
        ra is DoNotDisturb <==> a is DoNotDisturb,
        ra is FactoryReset <==> a is FactoryReset,
        ra is Input <==> a is Input,
        ra is Intl <==> a is Intl,
        ra is Light <==> a is Light,
        ra is NightMode <==> a is NightMode,
        ra is Power <==> a is Power,
        ra is Privacy <==> a is Privacy,
        ra is Setup <==> a is Setup,
{
}

/// The audio policy is for the audio setting.
pub proof fn law_policies_are_for_their_setting(policy: PolicyType, r: SettingType)
    requires
        call_ensures(PolicyType::setting_type, (&policy,), r),
    ensures
        policy is Audio <==> r is Audio,
{
}

/// The interface that has both parts of the display, or one of them, or none.
pub open spec fn display(base: bool, light_sensor: bool) -> Interface {
    Interface::Display(InterfaceFlags { base, light_sensor })
}

/// When both parts of the display interface are asked for, the interface that has both is served in
/// their place. One part alone is served as it is, and so is every other interface. Nothing else of
/// the configuration changes.
pub proof fn law_display_parts_are_served_together(
    configuration: &mut ServiceConfiguration,
    interfaces: IdSet<Interface>,
    other: Interface,
)
    requires
        call_ensures(ServiceConfiguration::set_fidl_interfaces, (configuration, interfaces), ()),
        !(other is Display),
    ensures
        ({
            let asked = interfaces@;
            let served = final(configuration).fidl_interfaces@;
            let both = asked.contains(display(true, false)) && asked.contains(
                display(false, true),
            );
            &&& served.contains(other) == asked.contains(other)
            &&& served.contains(display(true, true)) == (both || asked.contains(
                display(true, true),
            ))
            &&& served.contains(display(true, false)) == (asked.contains(display(true, false))
                && !both)
            &&& served.contains(display(false, true)) == (asked.contains(display(false, true))
                && !both)
            &&& served.contains(display(false, false)) == asked.contains(display(false, false))
        }),
        final(configuration).agent_types == old(configuration).agent_types,
        final(configuration).policies == old(configuration).policies,
        final(configuration).controller_flags == old(configuration).controller_flags,
{
}

/// Setting the policies or the flags sets those, and changes nothing else of the configuration.
pub proof fn law_configurations_are_changed_in_one_place(
    configuration: &mut ServiceConfiguration,
    policies: IdSet<PolicyType>,
    flags: IdSet<ControllerFlag>,
)
    ensures
        call_ensures(ServiceConfiguration::set_policies, (configuration, policies), ()) ==> {
            &&& final(configuration).policies == policies
            &&& final(configuration).agent_types == old(configuration).agent_types
            &&& final(configuration).fidl_interfaces == old(configuration).fidl_interfaces
            &&& final(configuration).controller_flags == old(configuration).controller_flags
        },
        call_ensures(ServiceConfiguration::set_controller_flags, (configuration, flags), ()) ==> {
            &&& final(configuration).controller_flags == flags
            &&& final(configuration).agent_types == old(configuration).agent_types
            &&& final(configuration).fidl_interfaces == old(configuration).fidl_interfaces
            &&& final(configuration).policies == old(configuration).policies
        },
{
}

// A setting is among those that interfaces are made for just when its interface is made.
proof fn lemma_interface_made(settings: Set<SettingType>, setting_type: SettingType)
    ensures
        crate::setui::environment::interfaces_of(settings).contains(Interface::of(setting_type))
            == settings.contains(setting_type),
{
    let f = |s: SettingType| Interface::of(s);
    let made = settings.map(f);
    if settings.contains(setting_type) {
        assert(f(setting_type) == Interface::of(setting_type));
        assert(made.contains(f(setting_type)));
    }
    if made.contains(Interface::of(setting_type)) {
        let s = choose|s: SettingType| settings.contains(s) && f(s) == Interface::of(setting_type);
        assert(s == setting_type);
    }
}

/// A service serves every enabled setting over its interface, with the display and the light sensor
/// together where both are enabled, and serves no setting that is not enabled. It has the agents,
/// policies and flags that it was configured with.
pub proof fn law_enabled_settings_are_served(
    agents: AgentConfiguration,
    services: EnabledServicesConfiguration,
    policies: EnabledPoliciesConfiguration,
    flags: ServiceFlags,
    r: ServiceConfiguration,
)
    requires
        call_ensures(ServiceConfiguration::from, (agents, services, policies, flags), r),
    ensures
        r.agent_types == agents.agent_types,
        r.policies == policies.policies,
        r.controller_flags == flags.controller_flags,
        ({
            let served = r.fidl_interfaces@;
            let enabled = services.services@;
            &&& served.contains(Interface::Accessibility) == enabled.contains(
                SettingType::Accessibility,
            )
            &&& served.contains(Interface::Account) == enabled.contains(SettingType::Account)
            &&& served.contains(Interface::Audio) == enabled.contains(SettingType::Audio)
            &&& served.contains(Interface::Device) == enabled.contains(SettingType::Device)
            &&& served.contains(Interface::DoNotDisturb) == enabled.contains(
                SettingType::DoNotDisturb,
            )
            &&& served.contains(Interface::FactoryReset) == enabled.contains(
                SettingType::FactoryReset,
            )
            &&& served.contains(Interface::Input) == enabled.contains(SettingType::Input)
            &&& served.contains(Interface::Intl) == enabled.contains(SettingType::Intl)
            &&& served.contains(Interface::Light) == enabled.contains(SettingType::Light)
            &&& served.contains(Interface::NightMode) == enabled.contains(SettingType::NightMode)
            &&& served.contains(Interface::Power) == enabled.contains(SettingType::Power)
            &&& served.contains(Interface::Privacy) == enabled.contains(SettingType::Privacy)
            &&& served.contains(Interface::Setup) == enabled.contains(SettingType::Setup)
            &&& served.contains(display(true, true)) == (enabled.contains(SettingType::Display)
                && enabled.contains(SettingType::LightSensor))
            &&& served.contains(display(true, false)) == (enabled.contains(SettingType::Display)
                && !enabled.contains(SettingType::LightSensor))
            &&& served.contains(display(false, true)) == (enabled.contains(
                SettingType::LightSensor,
            ) && !enabled.contains(SettingType::Display))
            &&& !served.contains(display(false, false))
        }),
{
    let enabled = services.services@;
    let f = |s: SettingType| Interface::of(s);
    let made = crate::setui::environment::interfaces_of(enabled);
    lemma_interface_made(enabled, SettingType::Accessibility);
    lemma_interface_made(enabled, SettingType::Account);
    lemma_interface_made(enabled, SettingType::Audio);
    lemma_interface_made(enabled, SettingType::Device);
    lemma_interface_made(enabled, SettingType::Display);
    lemma_interface_made(enabled, SettingType::DoNotDisturb);
    lemma_interface_made(enabled, SettingType::FactoryReset);
    lemma_interface_made(enabled, SettingType::Input);
    lemma_interface_made(enabled, SettingType::Intl);
    lemma_interface_made(enabled, SettingType::Light);
    lemma_interface_made(enabled, SettingType::LightSensor);
    lemma_interface_made(enabled, SettingType::NightMode);
    lemma_interface_made(enabled, SettingType::Power);
    lemma_interface_made(enabled, SettingType::Privacy);
    lemma_interface_made(enabled, SettingType::Setup);
    if made.contains(display(true, true)) {
        let s = choose|s: SettingType| enabled.contains(s) && f(s) == display(true, true);
        assert(f(s) == display(true, true));
    }
    if made.contains(display(false, false)) {
        let s = choose|s: SettingType| enabled.contains(s) && f(s) == display(false, false);
        assert(f(s) == display(false, false));
    }
}

/// Configurations are equal just when they have the same agents, interfaces, policies and flags.
pub proof fn law_configurations_are_told_apart(
    a: ServiceConfiguration,
    b: ServiceConfiguration,
    r: bool,
)
    requires
        call_ensures(<ServiceConfiguration as PartialEq>::eq, (&a, &b), r),
    ensures
        r <==> {
            &&& a.agent_types@ == b.agent_types@
            &&& a.fidl_interfaces@ == b.fidl_interfaces@
            &&& a.policies@ == b.policies@
            &&& a.controller_flags@ == b.controller_flags@
        },
{
}

/// Every setting has a handler, and just one. Storage is initialized for those that are enabled.
/// The power, account, device and light sensor controllers store nothing, and that of the display
/// leaves the brightness to others just when the flag says so.
pub proof fn law_every_setting_is_handled_once(
    components: IdSet<SettingType>,
    flags: IdSet<ControllerFlag>,
    r: Vec<HandlerRegistration>,
    setting_type: SettingType,
) -> (place: int)
    requires
        call_ensures(get_configuration_handlers, (&components, &flags), r),
    ensures
        0 <= place < r@.len(),
        r@[place].setting_type == setting_type,
        forall|i: int|
            0 <= i < r@.len() && i != place ==> (#[trigger] r@[i]).setting_type != setting_type,
        r@[place].initialize_storage <==> components@.contains(setting_type),
        r@[place].controller is Plain <==> (setting_type is Power || setting_type is Account
            || setting_type is Device || setting_type is LightSensor),
        r@[place].controller is DataWithExternalBrightness <==> (setting_type is Display
            && flags@.contains(ControllerFlag::ExternalBrightnessControl)),
{
    let order = crate::setui::environment::registration_order();
    crate::setui::environment::law_every_setting_is_registered_once(setting_type);
    let place = order.index_of(setting_type);
    assert forall|i: int| 0 <= i < r@.len() && i != place implies (#[trigger] r@[i]).setting_type
        != setting_type by {
        assert(order[i] != order[place]);
    }
    place
}

/// Handlers are registered with the power setting first and the setup last, the others between
/// them in a fixed order.
pub proof fn law_handlers_are_registered_in_order(
    components: IdSet<SettingType>,
    flags: IdSet<ControllerFlag>,
    r: Vec<HandlerRegistration>,
)
    requires
        call_ensures(get_configuration_handlers, (&components, &flags), r),
    ensures
        r@.len() == 15,
        r@[0].setting_type is Power,
        r@[1].setting_type is Accessibility,
        r@[2].setting_type is Account,
        r@[3].setting_type is Audio,
        r@[4].setting_type is Device,
        r@[5].setting_type is Display,
        r@[6].setting_type is Light,
        r@[7].setting_type is LightSensor,
        r@[8].setting_type is Input,
        r@[9].setting_type is Intl,
        r@[10].setting_type is DoNotDisturb,
        r@[11].setting_type is FactoryReset,
        r@[12].setting_type is NightMode,
        r@[13].setting_type is Privacy,
        r@[14].setting_type is Setup,
{
}

/// Whether a registrant depends on the handler of a setting.
pub open spec fn depends_on<H>(registrant: Registrant<H>, setting_type: SettingType) -> bool {
    registrant.dependencies@.contains(Dependency::Entity(Entity::Handler(setting_type)))
}

// A registrant depends on a handler just when the handler is among its dependencies.
proof fn lemma_depends_on<H>(registrant: Registrant<H>, setting_type: SettingType)
    ensures
        registrant.needs(setting_type) == depends_on(registrant, setting_type),
{
    let dependency = Dependency::Entity(Entity::Handler(setting_type));
    if registrant.needs(setting_type) {
        let i = choose|i: int|
            0 <= i < registrant.dependencies@.len() && crate::setui::environment::needed(
                #[trigger] registrant.dependencies@[i],
            ) == setting_type;
        assert(registrant.dependencies@[i] == dependency);
    }
    if registrant.dependencies@.contains(dependency) {
        let i = registrant.dependencies@.index_of(dependency);
        assert(crate::setui::environment::needed(registrant.dependencies@[i]) == setting_type);
    }
}

/// Whether two builders agree in everything but possibly their configuration.
pub open spec fn agree_but_for_configuration<T, H, F>(
    a: EnvironmentBuilder<T, H, F>,
    b: EnvironmentBuilder<T, H, F>,
) -> bool {
    &&& a.agent_blueprints == b.agent_blueprints
    &&& a.agent_mapping_func == b.agent_mapping_func
    &&& a.event_subscriber_blueprints == b.event_subscriber_blueprints
    &&& a.storage_factory == b.storage_factory
    &&& a.generate_service == b.generate_service
    &&& a.registrants == b.registrants
    &&& a.settings == b.settings
    &&& a.handlers == b.handlers
    &&& a.resource_monitors == b.resource_monitors
}

/// A new builder has the storage that it was made with, and nothing else.
pub proof fn law_builders_start_with_storage_alone<T, H, F: Fn(AgentType) -> H>(
    storage_factory: T,
    r: EnvironmentBuilder<T, H, F>,
)
    requires
        call_ensures(EnvironmentBuilder::<T, H, F>::new, (storage_factory,), r),
    ensures
        r.storage_factory == storage_factory,
        r.configuration is None,
        r.agent_mapping_func is None,
        r.generate_service is None,
        r.agent_blueprints@.len() == 0,
        r.event_subscriber_blueprints@.len() == 0,
        r.registrants@.len() == 0,
        r.settings@.len() == 0,
        r.handlers@.len() == 0,
        r.resource_monitors@.len() == 0,
{
}

/// What a builder is given is added at the end of what it was given before, and nothing else of it
/// changes.
pub proof fn law_builders_collect_what_they_are_given<T, H, F: Fn(AgentType) -> H>(
    builder: EnvironmentBuilder<T, H, F>,
    settings: &[SettingType],
    registrants: Vec<Registrant<H>>,
    given: Vec<H>,
    r: EnvironmentBuilder<T, H, F>,
)
    ensures
        call_ensures(EnvironmentBuilder::<T, H, F>::settings, (builder, settings), r) ==> {
            &&& r.settings@ == builder.settings@ + settings@
            &&& r == (EnvironmentBuilder { settings: r.settings, ..builder })
        },
        call_ensures(EnvironmentBuilder::<T, H, F>::registrants, (builder, registrants), r) ==> {
            &&& r.registrants@ == builder.registrants@ + registrants@
            &&& r == (EnvironmentBuilder { registrants: r.registrants, ..builder })
        },
        call_ensures(EnvironmentBuilder::<T, H, F>::agents, (builder, given), r) ==> {
            &&& r.agent_blueprints@ == builder.agent_blueprints@ + given@
            &&& r == (EnvironmentBuilder { agent_blueprints: r.agent_blueprints, ..builder })
        },
        call_ensures(EnvironmentBuilder::<T, H, F>::resource_monitors, (builder, given), r) ==> {
            &&& r.resource_monitors@ == builder.resource_monitors@ + given@
            &&& r == (EnvironmentBuilder { resource_monitors: r.resource_monitors, ..builder })
        },
        call_ensures(EnvironmentBuilder::<T, H, F>::event_subscribers, (builder, given), r) ==> {
            &&& r.event_subscriber_blueprints@ == builder.event_subscriber_blueprints@ + given@
            &&& r == (EnvironmentBuilder {
                event_subscriber_blueprints: r.event_subscriber_blueprints,
                ..builder
            })
        },
{
}

/// The last configuration, service generator and agent mapping are those that count, and nothing
/// else of the builder changes with them.
pub proof fn law_builders_take_the_last<T, H, F: Fn(AgentType) -> H>(
    builder: EnvironmentBuilder<T, H, F>,
    configuration: ServiceConfiguration,
    generate_service: H,
    mapping: F,
    r: EnvironmentBuilder<T, H, F>,
)
    ensures
        call_ensures(EnvironmentBuilder::<T, H, F>::configuration, (builder, configuration), r) ==> {
            &&& r.configuration == Some(configuration)
            &&& agree_but_for_configuration(r, builder)
        },
        call_ensures(EnvironmentBuilder::<T, H, F>::service, (builder, generate_service), r) ==> r
            == (EnvironmentBuilder { generate_service: Some(generate_service), ..builder }),
        call_ensures(EnvironmentBuilder::<T, H, F>::agent_mapping, (builder, mapping), r) ==> r == (
        EnvironmentBuilder { agent_mapping_func: Some(mapping), ..builder }),
{
}

/// Interfaces, policies and flags that a builder is given take the place of those that it had, and
/// leave the other parts of its configuration as they are.
pub proof fn law_builders_configure_one_thing<T, H, F: Fn(AgentType) -> H>(
    builder: EnvironmentBuilder<T, H, F>,
    interfaces: &[Interface],
    policies: &[PolicyType],
    flags: &[ControllerFlag],
    r: EnvironmentBuilder<T, H, F>,
)
    requires
        builder.configuration is Some,
    ensures
        call_ensures(EnvironmentBuilder::<T, H, F>::fidl_interfaces, (builder, interfaces), r) ==> {
            &&& r.configuration is Some
            &&& forall|x: Interface|
                !(x is Display) ==> #[trigger] r.configuration->0.fidl_interfaces@.contains(x)
                    == interfaces@.contains(x)
            &&& r.configuration->0.fidl_interfaces@.contains(display(true, true)) == (
            interfaces@.contains(display(true, true)) || (interfaces@.contains(display(true, false))
                && interfaces@.contains(display(false, true))))
            &&& r.configuration->0.fidl_interfaces@.contains(display(true, false)) == (
            interfaces@.contains(display(true, false)) && !interfaces@.contains(
                display(false, true),
            ))
            &&& r.configuration->0.fidl_interfaces@.contains(display(false, true)) == (
            interfaces@.contains(display(false, true)) && !interfaces@.contains(
                display(true, false),
            ))
            &&& r.configuration->0.agent_types.elements()
                == builder.configuration->0.agent_types.elements()
            &&& r.configuration->0.policies@ == builder.configuration->0.policies@
            &&& r.configuration->0.controller_flags@ == builder.configuration->0.controller_flags@
            &&& agree_but_for_configuration(r, builder)
        },
        call_ensures(EnvironmentBuilder::<T, H, F>::policies, (builder, policies), r) ==> {
            &&& r.configuration is Some
            &&& forall|x: PolicyType| #[trigger]
                r.configuration->0.policies@.contains(x) == policies@.contains(x)
            &&& r.configuration->0.agent_types.elements()
                == builder.configuration->0.agent_types.elements()
            &&& r.configuration->0.fidl_interfaces@ == builder.configuration->0.fidl_interfaces@
            &&& r.configuration->0.controller_flags@ == builder.configuration->0.controller_flags@
            &&& agree_but_for_configuration(r, builder)
        },
        call_ensures(EnvironmentBuilder::<T, H, F>::flags, (builder, flags), r) ==> {
            &&& r.configuration is Some
            &&& forall|x: ControllerFlag| #[trigger]
                r.configuration->0.controller_flags@.contains(x) == flags@.contains(x)
            &&& r.configuration->0.agent_types.elements()
                == builder.configuration->0.agent_types.elements()
            &&& r.configuration->0.fidl_interfaces@ == builder.configuration->0.fidl_interfaces@
            &&& r.configuration->0.policies@ == builder.configuration->0.policies@
            &&& agree_but_for_configuration(r, builder)
        },
{
    assert(forall|x: Interface| #[trigger]
        interfaces@.to_set().contains(x) == interfaces@.contains(x));
    assert(forall|x: PolicyType| #[trigger]
        policies@.to_set().contains(x) == policies@.contains(x));
    assert(forall|x: ControllerFlag| #[trigger]
        flags@.to_set().contains(x) == flags@.contains(x));
}

/// The last handler that a builder is given for a setting is the only one for it. The handlers for
/// other settings stay.
pub proof fn law_last_handler_of_a_setting_counts<T, H, F: Fn(AgentType) -> H>(
    builder: EnvironmentBuilder<T, H, F>,
    setting_type: SettingType,
    handler: H,
    r: EnvironmentBuilder<T, H, F>,
)
    requires
        builder.wf(),
        call_ensures(EnvironmentBuilder::<T, H, F>::handler, (builder, setting_type, handler), r),
    ensures
        forall|x: (SettingType, H)| #[trigger]
            r.handlers@.contains(x) <==> if x.0 == setting_type {
                x.1 == handler
            } else {
                builder.handlers@.contains(x)
            },
        r == (EnvironmentBuilder { handlers: r.handlers, ..builder }),
{
    assert forall|x: (SettingType, H)| #[trigger] r.handlers@.contains(x) <==> if x.0
        == setting_type {
        x.1 == handler
    } else {
        builder.handlers@.contains(x)
    } by {
        lemma_handler_for(r.handlers@, x);
        lemma_handler_for(builder.handlers@, x);
        assert(crate::setui::environment::handler_for(r.handlers@, x.0) == if x.0 == setting_type {
            Some(handler)
        } else {
            crate::setui::environment::handler_for(builder.handlers@, x.0)
        });
    }
}

// Among handlers of which no two are for the same setting, the one for a setting is the one that is
// found for it.
proof fn lemma_handler_for<H>(handlers: Seq<(SettingType, H)>, x: (SettingType, H))
    requires
        crate::setui::environment::handlers_distinct(handlers),
    ensures
        handlers.contains(x) <==> crate::setui::environment::handler_for(handlers, x.0) == Some(
            x.1,
        ),
{
    if handlers.contains(x) {
        let i = handlers.index_of(x);
        assert(handlers[i].0 == x.0);
        let k = choose|k: int| 0 <= k < handlers.len() && (#[trigger] handlers[k]).0 == x.0;
        assert(k == i);
    }
    if crate::setui::environment::handler_for(handlers, x.0) == Some(x.1) {
        let k = choose|k: int| 0 <= k < handlers.len() && (#[trigger] handlers[k]).0 == x.0;
        assert(handlers[k] == x);
    }
}

/// The settings of an environment are those that were asked for and those that a registrant, given
/// or made for an interface, depends on. Storage is initialized for just these, and for the audio
/// policy.
pub proof fn law_environments_have_the_settings_that_are_needed<
    T,
    H,
    F: Fn(AgentType) -> H,
    G: Fn(Interface) -> Registrant<H>,
>(
    builder: EnvironmentBuilder<T, H, F>,
    runtime: Runtime,
    registrant_of: &G,
    r: PreparedEnvironment<T, H>,
)
    requires
        call_ensures(
            EnvironmentBuilder::<T, H, F>::prepare_env::<G>,
            (builder, runtime, registrant_of),
            r,
        ),
    ensures
        forall|setting_type: SettingType| #[trigger]
            r.settings@.contains(setting_type) <==> (builder.settings@.contains(setting_type)
                || exists|i: int|
                0 <= i < r.registrants@.len() && depends_on(
                    #[trigger] r.registrants@[i],
                    setting_type,
                )),
        forall|i: int|
            0 <= i < r.handlers@.len() ==> (#[trigger] r.handlers@[i]).initialize_storage
                == r.settings@.contains(r.handlers@[i].setting_type),
        r.handlers@.len() == 15,
        r.policy_storage@ == seq![PolicyType::Audio],
{
    assert forall|setting_type: SettingType| #[trigger]
        r.settings@.contains(setting_type) <==> (builder.settings@.contains(setting_type) || exists|
            i: int,
        |
            0 <= i < r.registrants@.len() && depends_on(
                #[trigger] r.registrants@[i],
                setting_type,
            )) by {
        assert forall|i: int| 0 <= i < r.registrants@.len() implies (
        #[trigger] r.registrants@[i]).needs(setting_type) == depends_on(
            r.registrants@[i],
            setting_type,
        ) by {
            lemma_depends_on(r.registrants@[i], setting_type);
        }
    }
}

/// An environment has the registrants that were given, in their order, and after them one for each
/// interface that is configured. Without a configuration there are none but the given ones, and no
/// agent types and no policies.
pub proof fn law_interfaces_get_registrants<
    T,
    H,
    F: Fn(AgentType) -> H,
    G: Fn(Interface) -> Registrant<H>,
>(
    builder: EnvironmentBuilder<T, H, F>,
    runtime: Runtime,
    registrant_of: &G,
    r: PreparedEnvironment<T, H>,
)
    requires
        call_ensures(
            EnvironmentBuilder::<T, H, F>::prepare_env::<G>,
            (builder, runtime, registrant_of),
            r,
        ),
    ensures
        r.registrants@.len() >= builder.registrants@.len(),
        forall|i: int|
            0 <= i < builder.registrants@.len() ==> #[trigger] r.registrants@[i]
                == builder.registrants@[i],
        builder.configuration is None ==> {
            &&& r.registrants@.len() == builder.registrants@.len()
            &&& r.agent_types.elements().len() == 0
            &&& forall|x: PolicyType| !r.policies@.contains(x)
        },
        builder.configuration is Some ==> {
            let interfaces = builder.configuration->0.fidl_interfaces.elements();
            let given = builder.registrants@.len();
            &&& r.registrants@.len() == given + interfaces.len()
            &&& forall|i: int|
                0 <= i < interfaces.len() ==> call_ensures(
                    *registrant_of,
                    (#[trigger] interfaces[i],),
                    r.registrants@[given + i],
                )
            &&& r.agent_types.elements() == builder.configuration->0.agent_types.elements()
            &&& r.policies@ == builder.configuration->0.policies@
        },
{
    assert forall|i: int| 0 <= i < builder.registrants@.len() implies #[trigger] r.registrants@[i]
        == builder.registrants@[i] by {
        assert(r.registrants@.take(builder.registrants@.len() as int)[i] == r.registrants@[i]);
    }
}

/// The agents of an environment are made from the configured agent types where a mapping was given,
/// and are the given ones otherwise. Everything else is handed on as it was given, and the
/// environment is a service just when the runtime is.
pub proof fn law_environments_have_what_was_given<
    T,
    H,
    F: Fn(AgentType) -> H,
    G: Fn(Interface) -> Registrant<H>,
>(
    builder: EnvironmentBuilder<T, H, F>,
    runtime: Runtime,
    registrant_of: &G,
    r: PreparedEnvironment<T, H>,
)
    requires
        call_ensures(
            EnvironmentBuilder::<T, H, F>::prepare_env::<G>,
            (builder, runtime, registrant_of),
            r,
        ),
    ensures
        r.is_service <==> runtime is Service,
        builder.agent_mapping_func is None ==> r.agent_blueprints@ == builder.agent_blueprints@,
        builder.agent_mapping_func is Some ==> {
            &&& r.agent_blueprints@.len() == r.agent_types.elements().len()
            &&& forall|i: int|
                0 <= i < r.agent_blueprints@.len() ==> call_ensures(
                    builder.agent_mapping_func->0,
                    (r.agent_types.elements()[i],),
                    #[trigger] r.agent_blueprints@[i],
                )
        },
        r.custom_handlers@ == builder.handlers@,
        r.resource_monitors@ == builder.resource_monitors@,
        r.event_subscriber_blueprints@ == builder.event_subscriber_blueprints@,
        r.generate_service == builder.generate_service,
        r.storage_factory == builder.storage_factory,
{
}

/// A registrant is registered just when every handler that it depends on is that of a setting of
/// the environment.
pub proof fn law_registrants_are_registered_with_their_dependencies<H>(
    components: IdSet<SettingType>,
    registrants: Vec<Registrant<H>>,
    policies: IdSet<PolicyType>,
    blueprints: Vec<H>,
    monitors: Vec<H>,
    r: EnvironmentSteps,
    i: int,
)
    requires
        call_ensures(
            create_environment::<H>,
            (&components, &registrants, &policies, &blueprints, &monitors),
            r,
        ),
        0 <= i < registrants@.len(),
    ensures
        r.register@.len() == registrants@.len(),
        r.register@[i] <==> forall|setting_type: SettingType| #[trigger]
            depends_on(registrants@[i], setting_type) ==> components@.contains(setting_type),
{
    let registrant = registrants@[i];
    let entities = crate::setui::environment::entities_of(components@);
    assert(r.register@[i] == registrant.is_fulfilled(entities));
    if registrant.is_fulfilled(entities) {
        assert forall|setting_type: SettingType| #[trigger]
            depends_on(registrant, setting_type) implies components@.contains(setting_type) by {
            let dependency = Dependency::Entity(Entity::Handler(setting_type));
            let k = registrant.dependencies@.index_of(dependency);
            assert(crate::setui::environment::needed(registrant.dependencies@[k]) == setting_type);
            assert(entities.contains(Entity::Handler(setting_type)));
        }
    } else {
        let k = choose|k: int|
            0 <= k < registrant.dependencies@.len() && !entities.contains(
                Entity::Handler(
                    crate::setui::environment::needed(#[trigger] registrant.dependencies@[k]),
                ),
            );
        let setting_type = crate::setui::environment::needed(registrant.dependencies@[k]);
        assert(registrant.dependencies@[k] == Dependency::Entity(Entity::Handler(setting_type)));
        assert(depends_on(registrant, setting_type));
    }
}

/// In an environment that a builder prepared, every registrant is registered.
pub proof fn law_prepared_registrants_are_registered<
    T,
    H,
    F: Fn(AgentType) -> H,
    G: Fn(Interface) -> Registrant<H>,
>(
    builder: EnvironmentBuilder<T, H, F>,
    runtime: Runtime,
    registrant_of: &G,
    prepared: PreparedEnvironment<T, H>,
    r: EnvironmentSteps,
    i: int,
)
    requires
        call_ensures(
            EnvironmentBuilder::<T, H, F>::prepare_env::<G>,
            (builder, runtime, registrant_of),
            prepared,
        ),
        call_ensures(
            create_environment::<H>,
            (
                &prepared.settings,
                &prepared.registrants,
                &prepared.policies,
                &prepared.agent_blueprints,
                &prepared.resource_monitors,
            ),
            r,
        ),
        0 <= i < prepared.registrants@.len(),
    ensures
        r.register@[i],
{
    law_environments_have_the_settings_that_are_needed(builder, runtime, registrant_of, prepared);
    law_registrants_are_registered_with_their_dependencies(
        prepared.settings,
        prepared.registrants,
        prepared.policies,
        prepared.agent_blueprints,
        prepared.resource_monitors,
        r,
        i,
    );
}

/// An environment has a proxy and a handler for each of its settings, and a proxy for each enabled
/// policy whose setting it has. It is monitored if there is a monitor.
pub proof fn law_environments_have_proxies<H>(
    components: IdSet<SettingType>,
    registrants: Vec<Registrant<H>>,
    policies: IdSet<PolicyType>,
    blueprints: Vec<H>,
    monitors: Vec<H>,
    r: EnvironmentSteps,
    setting_type: SettingType,
    policy: PolicyType,
    policy_setting: SettingType,
)
    requires
        call_ensures(
            create_environment::<H>,
            (&components, &registrants, &policies, &blueprints, &monitors),
            r,
        ),
        call_ensures(PolicyType::setting_type, (&policy,), policy_setting),
    ensures
        r.monitored <==> monitors@.len() > 0,
        r.setting_proxies.elements() == components.elements(),
        r.entities@.contains(Entity::Handler(setting_type)) == components@.contains(setting_type),
        r.policy_proxies@.contains(policy) <==> (policies@.contains(policy) && components@.contains(
            policy_setting,
        )),
{
    let wanted = |p: PolicyType| components@.contains(p.setting());
    let kept = policies.elements().filter(wanted);
    if kept.contains(policy) {
        let k = kept.index_of(policy);
        policies.elements().lemma_filter_pred(wanted, k);
        policies.elements().lemma_filter_contains_rev(wanted, policy);
    }
    if policies@.contains(policy) && components@.contains(policy_setting) {
        let k = policies.elements().index_of(policy);
        policies.elements().lemma_filter_contains(wanted, k);
    }
}

/// The agent that gives access to storage is registered first, then one for each blueprint in
/// their order. Agents are first run to initialize the service, one after the other, and none of
/// them may fail. They are then run at the same time, and may.
pub proof fn law_storage_comes_before_other_agents<H>(
    components: IdSet<SettingType>,
    registrants: Vec<Registrant<H>>,
    policies: IdSet<PolicyType>,
    blueprints: Vec<H>,
    monitors: Vec<H>,
    r: EnvironmentSteps,
)
    requires
        call_ensures(
            create_environment::<H>,
            (&components, &registrants, &policies, &blueprints, &monitors),
            r,
        ),
    ensures
        r.agents@.len() == blueprints@.len() + 1,
        r.agents@[0] is Storage,
        forall|i: int|
            0 < i < r.agents@.len() ==> #[trigger] r.agents@[i] is Blueprint
                && r.agents@[i]->Blueprint_0 == i - 1,
        r.lifespans@.len() == 2,
        r.lifespans@[0].lifespan is Initialization,
        r.lifespans@[0].sequential,
        r.lifespans@[0].required,
        r.lifespans@[1].lifespan is Service,
        !r.lifespans@[1].sequential,
        !r.lifespans@[1].required,
{
    assert(blueprints@.len() <= usize::MAX) by {
        assert(blueprints.len() == blueprints@.len());
    }
}

} // verus!
