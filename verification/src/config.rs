//! The configuration of a router: the devices, the mapping rules of each
//! device, and the plan of routes that they amount to.

use vstd::prelude::*;
use crate::mapping::{check_fields, spec_field_problem, FieldError, FieldErrorView};
use crate::message::FieldMap;
use crate::midi::message_template::MessageTemplate;

verus! {

/// The devices of the system and, by the name of the device they listen to,
/// the mapping rules.
#[derive(Debug, Clone)]
pub struct Config {
    pub devices: Vec<DeviceInfo>,
    /// The rules of each source device, in the order they are applied in.
    pub mappings: Vec<(String, Vec<Mapping>)>,
}

#[derive(Debug, Clone)]
pub struct DeviceInfo {
    /// The name of the device. Can be anything.
    pub name: String,
    pub connection_info: ConnectionInfo,
}

#[derive(Debug, Clone)]
pub enum ConnectionInfo {
    /// MIDI over TCP connection information.
    TcpMidi {
        /// The address and port of the TCP MIDI device, such as `"192.168.40.13:8033"`.
        midi_address: String,
    },
    /// MIDI connection information.
    Midi {
        /// The name of the MIDI input device.
        midi_in: String,
        /// The name of the MIDI output device.
        midi_out: String,
    },
}

/// One mapping rule: the template that a message of the source device has
/// to match, and what becomes of it.
#[derive(Debug, Clone)]
pub struct Mapping {
    pub message_template: MessageTemplate,
    pub target: Target,
}

/// Where a matched message goes and what it is turned into.
#[derive(Debug, Clone)]
pub struct Target {
    /// The name of the device that receives the message.
    pub name: String,
    /// The fields of the match that change their names on the way.
    pub field_map: FieldMap,
    pub message_template: MessageTemplate,
}

/// Why a configuration cannot be routed.
#[derive(Debug, Clone, PartialEq, Eq)]
pub enum Error {
    /// A mapping names a device that the configuration does not hold.
    DeviceNotFound(String),
    /// Two devices have the same name.
    DuplicateDevice(String),
    /// The renaming of a rule names a field that the template on that side
    /// does not have.
    UnknownField(String),
    /// The renaming of a rule lets two fields come out under this one name.
    FieldCollision(String),
}

/// What an [`Error`] stands for.
pub enum ErrorView {
    DeviceNotFound(Seq<char>),
    DuplicateDevice(Seq<char>),
    UnknownField(Seq<char>),
    FieldCollision(Seq<char>),
}

impl View for Error {
    type V = ErrorView;

    open spec fn view(&self) -> ErrorView {
        match self {
            Error::DeviceNotFound(name) => ErrorView::DeviceNotFound(name@),
            Error::DuplicateDevice(name) => ErrorView::DuplicateDevice(name@),
            Error::UnknownField(name) => ErrorView::UnknownField(name@),
            Error::FieldCollision(name) => ErrorView::FieldCollision(name@),
        }
    }
}

/// One mapper to run: it listens to the device at index `from`, applies
/// rule `rule` of the mappings at index `source`, and sends what comes of it
/// to the device at index `to`.
#[derive(Debug, Clone, Copy, PartialEq, Eq, Structural)]
pub struct Route {
    pub from: usize,
    pub to: usize,
    pub source: usize,
    pub rule: usize,
}

/// The index of the first device at or after `from` that is called `name`.
pub open spec fn spec_find_from(devices: Seq<DeviceInfo>, name: Seq<char>, from: int) -> Option<
    usize,
>
    decreases devices.len() - from,
{
    if from < 0 || from >= devices.len() {
        None
    } else if devices[from].name@ == name {
        Some(from as usize)
    } else {
        spec_find_from(devices, name, from + 1)
    }
}

/// The index of the first device that is called `name`.
pub open spec fn spec_find(devices: Seq<DeviceInfo>, name: Seq<char>) -> Option<usize> {
    spec_find_from(devices, name, 0)
}

/// The name of the first device at or after index `from` that shares its
/// name with a device before it.
pub open spec fn spec_duplicate_from(devices: Seq<DeviceInfo>, from: int) -> Option<Seq<char>>
    decreases devices.len() - from,
{
    if from < 0 || from >= devices.len() {
        None
    } else if spec_find(devices, devices[from].name@) != Some(from as usize) {
        Some(devices[from].name@)
    } else {
        spec_duplicate_from(devices, from + 1)
    }
}

/// What is wrong with one rule, if anything: its target names no device,
/// or else its renaming does not fit its templates.
pub open spec fn spec_rule_problem(devices: Seq<DeviceInfo>, rule: Mapping) -> Option<ErrorView> {
    if spec_find(devices, rule.target.name@) is None {
        Some(ErrorView::DeviceNotFound(rule.target.name@))
    } else {
        match spec_field_problem(
            rule.target.field_map@,
            rule.message_template.spec_fields(),
            rule.target.message_template.spec_fields(),
        ) {
            Some(FieldErrorView::UnknownField(name)) => Some(ErrorView::UnknownField(name)),
            Some(FieldErrorView::Collision(name)) => Some(ErrorView::FieldCollision(name)),
            None => None,
        }
    }
}

/// What is wrong with the first rule at or after index `from` that has
/// something wrong with it.
pub open spec fn spec_rules_problem(devices: Seq<DeviceInfo>, rules: Seq<Mapping>, from: int)
    -> Option<ErrorView>
    decreases rules.len() - from,
{
    if from < 0 || from >= rules.len() {
        None
    } else if spec_rule_problem(devices, rules[from]) is Some {
        spec_rule_problem(devices, rules[from])
    } else {
        spec_rules_problem(devices, rules, from + 1)
    }
}

/// What is wrong with the mappings from source `from` on, if anything: a
/// source that names no device counts before its rules, and an earlier
/// source before a later one.
pub open spec fn spec_mappings_problem(
    devices: Seq<DeviceInfo>,
    mappings: Seq<(String, Vec<Mapping>)>,
    from: int,
) -> Option<ErrorView>
    decreases mappings.len() - from,
{
    if from < 0 || from >= mappings.len() {
        None
    } else if spec_find(devices, mappings[from].0@) is None {
        Some(ErrorView::DeviceNotFound(mappings[from].0@))
    } else if spec_rules_problem(devices, mappings[from].1@, 0) is Some {
        spec_rules_problem(devices, mappings[from].1@, 0)
    } else {
        spec_mappings_problem(devices, mappings, from + 1)
    }
}

/// The routes of the first `count` rules of source `source`.
pub open spec fn spec_source_routes(
    devices: Seq<DeviceInfo>,
    mappings: Seq<(String, Vec<Mapping>)>,
    source: int,
    count: int,
) -> Seq<Route> {
    Seq::new(
        count as nat,
        |rule: int|
            Route {
                from: spec_find(devices, mappings[source].0@).unwrap(),
                to: spec_find(devices, mappings[source].1@[rule].target.name@).unwrap(),
                source: source as usize,
                rule: rule as usize,
            },
    )
}

/// The routes of the first `count` sources, source by source and rule by rule.
pub open spec fn spec_routes_upto(
    devices: Seq<DeviceInfo>,
    mappings: Seq<(String, Vec<Mapping>)>,
    count: int,
) -> Seq<Route>
    decreases count,
{
    if count <= 0 {
        Seq::empty()
    } else {
        spec_routes_upto(devices, mappings, count - 1) + spec_source_routes(
            devices,
            mappings,
            count - 1,
            mappings[count - 1].1@.len() as int,
        )
    }
}

impl Config {
    /// What stands in the way of routing, if anything: a device's name that
    /// another device before it has, or else the first thing wrong with the
    /// mappings.
    pub open spec fn spec_problem(&self) -> Option<ErrorView> {
        match spec_duplicate_from(self.devices@, 0) {
            Some(name) => Some(ErrorView::DuplicateDevice(name)),
            None => spec_mappings_problem(self.devices@, self.mappings@, 0),
        }
    }

    /// The routes of the configuration, in the order of its mappings.
    pub open spec fn spec_routes(&self) -> Seq<Route> {
        spec_routes_upto(self.devices@, self.mappings@, self.mappings@.len() as int)
    }

    /// The index of the first device that is called `name`.
    pub fn find_device(&self, name: &String) -> (r: Option<usize>)
        ensures
            r == spec_find(self.devices@, name@),
            r matches Some(i) ==> i < self.devices@.len() && self.devices@[i as int].name@
                == name@,
    {
        let mut i: usize = 0;
        while i < self.devices.len()
            invariant
                i <= self.devices.len(),
                spec_find(self.devices@, name@) == spec_find_from(self.devices@, name@, i as int),
            decreases self.devices.len() - i,
        {
            if self.devices[i].name == *name {
                return Some(i);
            }
            i += 1;
        }
        None
    }

    /// The name of the first device that shares its name with a device before it.
    fn find_duplicate(&self) -> (r: Option<String>)
        ensures
            r matches Some(name) ==> spec_duplicate_from(self.devices@, 0) == Some(name@),
            r is None ==> spec_duplicate_from(self.devices@, 0) is None,
    {
        let mut i: usize = 0;
        while i < self.devices.len()
            invariant
                i <= self.devices.len(),
                spec_duplicate_from(self.devices@, 0) == spec_duplicate_from(
                    self.devices@,
                    i as int,
                ),
            decreases self.devices.len() - i,
        {
            let first = self.find_device(&self.devices[i].name);
            match first {
                Some(j) => {
                    if j != i {
                        return Some(self.devices[i].name.clone());
                    }
                },
                None => {
                    return Some(self.devices[i].name.clone());
                },
            }
            i += 1;
        }
        None
    }

    /// Appends the routes of source `source` to `routes`, or tells what is
    /// wrong with the first of its rules that has something wrong with it.
    fn plan_source(&self, source: usize, from: usize, routes: &mut Vec<Route>) -> (r: Result<
        (),
        Error,
    >)
        requires
            source < self.mappings@.len(),
            spec_find(self.devices@, self.mappings@[source as int].0@) == Some(from),
        ensures
            match r {
                Ok(()) => spec_rules_problem(
                    self.devices@,
                    self.mappings@[source as int].1@,
                    0,
                ) is None && final(routes)@ == old(routes)@ + spec_source_routes(
                    self.devices@,
                    self.mappings@,
                    source as int,
                    self.mappings@[source as int].1@.len() as int,
                ),
                Err(e) => spec_rules_problem(self.devices@, self.mappings@[source as int].1@, 0)
                    == Some(e@),
            },
    {
        let rules = &self.mappings[source].1;
        let mut rule: usize = 0;
        assert(routes@ =~= old(routes)@ + spec_source_routes(
            self.devices@,
            self.mappings@,
            source as int,
            0,
        ));
        while rule < rules.len()
            invariant
                rule <= rules.len(),
                source < self.mappings@.len(),
                *rules == self.mappings@[source as int].1,
                spec_find(self.devices@, self.mappings@[source as int].0@) == Some(from),
                spec_rules_problem(self.devices@, rules@, 0) == spec_rules_problem(
                    self.devices@,
                    rules@,
                    rule as int,
                ),
                routes@ == old(routes)@ + spec_source_routes(
                    self.devices@,
                    self.mappings@,
                    source as int,
                    rule as int,
                ),
            decreases rules.len() - rule,
        {
            let target = &rules[rule].target;
            let to: usize = match self.find_device(&target.name) {
                Some(to) => to,
                None => {
                    return Err(Error::DeviceNotFound(target.name.clone()));
                },
            };
            match check_fields(
                &rules[rule].message_template,
                &target.message_template,
                &target.field_map,
            ) {
                Ok(()) => {},
                Err(FieldError::UnknownField(name)) => {
                    return Err(Error::UnknownField(name));
                },
                Err(FieldError::Collision(name)) => {
                    return Err(Error::FieldCollision(name));
                },
            }
            routes.push(Route { from, to, source, rule });
            assert(routes@ =~= old(routes)@ + spec_source_routes(
                self.devices@,
                self.mappings@,
                source as int,
                rule + 1,
            ));
            rule += 1;
        }
        Ok(())
    }

    /// Plans the mappers that the configuration asks for: one route for each
    /// rule, in the order of the mappings. There is no plan where two
    /// devices share a name, a mapping names a device that is not there, or
    /// the renaming of a rule does not fit its templates; the error tells
    /// the first thing that is wrong.
    pub fn routes(&self) -> (r: Result<Vec<Route>, Error>)
        ensures
            match r {
                Ok(routes) => self.spec_problem() is None && routes@ == self.spec_routes(),
                Err(e) => self.spec_problem() == Some(e@),
            },
    {
        match self.find_duplicate() {
            Some(name) => {
                return Err(Error::DuplicateDevice(name));
            },
            None => {},
        }
        let mut routes: Vec<Route> = Vec::new();
        let mut source: usize = 0;
        while source < self.mappings.len()
            invariant
                source <= self.mappings.len(),
                spec_duplicate_from(self.devices@, 0) is None,
                spec_mappings_problem(self.devices@, self.mappings@, 0) == spec_mappings_problem(
                    self.devices@,
                    self.mappings@,
                    source as int,
                ),
                routes@ == spec_routes_upto(self.devices@, self.mappings@, source as int),
            decreases self.mappings.len() - source,
        {
            match self.find_device(&self.mappings[source].0) {
                Some(from) => {
                    match self.plan_source(source, from, &mut routes) {
                        Ok(()) => {},
                        Err(e) => {
                            return Err(e);
                        },
                    }
                },
                None => {
                    return Err(Error::DeviceNotFound(self.mappings[source].0.clone()));
                },
            }
            source += 1;
        }
        Ok(routes)
    }
}

proof fn lemma_find_from(devices: Seq<DeviceInfo>, name: Seq<char>, from: int)
    requires
        0 <= from,
        devices.len() <= usize::MAX,
    ensures
        match spec_find_from(devices, name, from) {
            Some(i) => {
                &&& from <= i < devices.len()
                &&& devices[i as int].name@ == name
                &&& forall|j: int| from <= j < i ==> (#[trigger] devices[j]).name@ != name
            },
            None => forall|j: int|
                from <= j < devices.len() ==> (#[trigger] devices[j]).name@ != name,
        },
    decreases devices.len() - from,
{
    if from < devices.len() && devices[from].name@ != name {
        lemma_find_from(devices, name, from + 1);
    }
}

/// A name is found at the least index whose device has it, and is not found
/// only where no device has it.
pub proof fn lemma_find_is_first(devices: Seq<DeviceInfo>, name: Seq<char>)
    requires
        devices.len() <= usize::MAX,
    ensures
        match spec_find(devices, name) {
            Some(i) => {
                &&& i < devices.len()
                &&& devices[i as int].name@ == name
                &&& forall|j: int| 0 <= j < i ==> (#[trigger] devices[j]).name@ != name
            },
            None => forall|j: int|
                0 <= j < devices.len() ==> (#[trigger] devices[j]).name@ != name,
        },
{
    lemma_find_from(devices, name, 0);
}

proof fn lemma_duplicate_from(devices: Seq<DeviceInfo>, from: int)
    requires
        0 <= from,
        devices.len() <= usize::MAX,
    ensures
        spec_duplicate_from(devices, from) is None <==> forall|i: int, j: int|
            0 <= i < j < devices.len() && from <= j ==> (#[trigger] devices[i]).name@ != (
            #[trigger] devices[j]).name@,
    decreases devices.len() - from,
{
    if from < devices.len() {
        lemma_find_is_first(devices, devices[from].name@);
        lemma_duplicate_from(devices, from + 1);
        if spec_find(devices, devices[from].name@) == Some(from as usize) {
            assert forall|i: int| 0 <= i < from implies (#[trigger] devices[i]).name@
                != devices[from].name@ by {}
        } else {
            let i = spec_find(devices, devices[from].name@).unwrap() as int;
            assert(devices[i].name@ == devices[from].name@ && i < from);
        }
    }
}

/// The devices' names are free of duplicates exactly when no two devices
/// have the same name.
pub proof fn lemma_no_duplicate_is_distinct(devices: Seq<DeviceInfo>)
    requires
        devices.len() <= usize::MAX,
    ensures
        spec_duplicate_from(devices, 0) is None <==> forall|i: int, j: int|
            0 <= i < j < devices.len() ==> (#[trigger] devices[i]).name@ != (
            #[trigger] devices[j]).name@,
{
    lemma_duplicate_from(devices, 0);
}

} // verus!
