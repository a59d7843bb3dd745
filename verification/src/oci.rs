//! The parts of a container's specification that devices are concerned with.
use vstd::prelude::*;

verus! {

/// Device types.
#[derive(Clone, Copy, Debug, PartialEq, Eq, Structural)]
pub enum LinuxDeviceType {
    /// All.
    A,
    /// Block (buffered).
    B,
    /// Character (unbuffered).
    C,
    /// Character (unbuffered).
    U,
    /// FIFO.
    P,
}

/// The letter that a specification writes for the device type.
pub open spec fn type_letter(typ: LinuxDeviceType) -> Seq<char> {
    match typ {
        LinuxDeviceType::A => seq!['a'],
        LinuxDeviceType::B => seq!['b'],
        LinuxDeviceType::C => seq!['c'],
        LinuxDeviceType::U => seq!['u'],
        LinuxDeviceType::P => seq!['p'],
    }
}

/// The device type that a specification writes as `name`.
pub open spec fn type_named(name: Seq<char>) -> Option<LinuxDeviceType> {
    if name == seq!['a'] {
        Some(LinuxDeviceType::A)
    } else if name == seq!['b'] {
        Some(LinuxDeviceType::B)
    } else if name == seq!['c'] {
        Some(LinuxDeviceType::C)
    } else if name == seq!['u'] {
        Some(LinuxDeviceType::U)
    } else if name == seq!['p'] {
        Some(LinuxDeviceType::P)
    } else {
        None
    }
}

/// Reading the letter of a device type gives the type back.
pub proof fn type_reads_back(typ: LinuxDeviceType)
    ensures
        type_named(type_letter(typ)) == Some(typ),
{
    assert(type_letter(typ)[0] == type_letter(typ)[0]);
    assert(seq!['a'][0] == 'a' && seq!['b'][0] == 'b' && seq!['c'][0] == 'c' && seq!['u'][0] == 'u'
        && seq!['p'][0] == 'p');
}

/// `<LinuxDeviceType as FromStr>::from_str` of oci-spec: each type is written
/// as one lower-case letter, and no other text is a type.
#[verifier::external_body]
pub(crate) fn parse_type(name: &str) -> (r: Option<LinuxDeviceType>)
    ensures
        r == type_named(name@),
{
    match name.parse::<oci_spec::runtime::LinuxDeviceType>() {
        Ok(oci_spec::runtime::LinuxDeviceType::A) => Some(LinuxDeviceType::A),
        Ok(oci_spec::runtime::LinuxDeviceType::B) => Some(LinuxDeviceType::B),
        Ok(oci_spec::runtime::LinuxDeviceType::C) => Some(LinuxDeviceType::C),
        Ok(oci_spec::runtime::LinuxDeviceType::U) => Some(LinuxDeviceType::U),
        Ok(oci_spec::runtime::LinuxDeviceType::P) => Some(LinuxDeviceType::P),
        Err(_) => None,
    }
}

/// `LinuxDeviceType::as_str` of oci-spec: the letter of the type.
#[verifier::external_body]
pub(crate) fn name_of_type(typ: LinuxDeviceType) -> (r: String)
    ensures
        r@ == type_letter(typ),
{
    let typ = match typ {
        LinuxDeviceType::A => oci_spec::runtime::LinuxDeviceType::A,
        LinuxDeviceType::B => oci_spec::runtime::LinuxDeviceType::B,
        LinuxDeviceType::C => oci_spec::runtime::LinuxDeviceType::C,
        LinuxDeviceType::U => oci_spec::runtime::LinuxDeviceType::U,
        LinuxDeviceType::P => oci_spec::runtime::LinuxDeviceType::P,
    };
    typ.as_str().to_owned()
}

/// `<LinuxDeviceType as Default>::default` of oci-spec: the type that stands
/// for all devices.
#[verifier::external_body]
pub(crate) fn default_type() -> (r: LinuxDeviceType)
    ensures
        r == LinuxDeviceType::A,
{
    match oci_spec::runtime::LinuxDeviceType::default() {
        oci_spec::runtime::LinuxDeviceType::A => LinuxDeviceType::A,
        oci_spec::runtime::LinuxDeviceType::B => LinuxDeviceType::B,
        oci_spec::runtime::LinuxDeviceType::C => LinuxDeviceType::C,
        oci_spec::runtime::LinuxDeviceType::U => LinuxDeviceType::U,
        oci_spec::runtime::LinuxDeviceType::P => LinuxDeviceType::P,
    }
}

/// A device node that the container gets.
#[derive(Clone, Debug)]
pub struct LinuxDevice {
    /// The node's path in the container.
    pub path: String,
    pub typ: LinuxDeviceType,
    pub major: i64,
    pub minor: i64,
}

/// A rule on which devices the container may use.
#[derive(Clone, Debug)]
pub struct LinuxDeviceCgroup {
    /// Allow or deny.
    pub allow: bool,
    pub typ: Option<LinuxDeviceType>,
    pub major: Option<i64>,
    pub minor: Option<i64>,
    /// What the rule is about: reading, writing, making nodes.
    pub access: Option<String>,
}

/// The resources that the container may use.
#[derive(Clone, Debug)]
pub struct LinuxResources {
    pub devices: Option<Vec<LinuxDeviceCgroup>>,
}

/// The Linux section of a specification.
#[derive(Clone, Debug)]
pub struct Linux {
    pub devices: Option<Vec<LinuxDevice>>,
    pub resources: Option<LinuxResources>,
}

/// The process that the container runs.
#[derive(Clone, Debug)]
pub struct Process {
    /// The environment: entries of the form `name=value`.
    pub env: Option<Vec<String>>,
}

/// A container's specification.
#[derive(Clone, Debug)]
pub struct Spec {
    pub linux: Option<Linux>,
    pub process: Option<Process>,
}

/// A device node, as contracts see it.
#[verifier::ext_equal]
pub struct LinuxDeviceView {
    pub path: Seq<char>,
    pub typ: LinuxDeviceType,
    pub major: i64,
    pub minor: i64,
}

/// A device rule, as contracts see it.
#[verifier::ext_equal]
pub struct LinuxDeviceCgroupView {
    pub allow: bool,
    pub typ: Option<LinuxDeviceType>,
    pub major: Option<i64>,
    pub minor: Option<i64>,
    pub access: Option<Seq<char>>,
}

/// The Linux section, as contracts see it.
#[verifier::ext_equal]
pub struct LinuxView {
    pub devices: Option<Seq<LinuxDeviceView>>,
    /// The device rules of the resources, where there are resources.
    pub resources: Option<Option<Seq<LinuxDeviceCgroupView>>>,
}

/// A specification, as contracts see it.
#[verifier::ext_equal]
pub struct SpecView {
    pub linux: Option<LinuxView>,
    /// The environment of the process, where there is a process.
    pub process: Option<Option<Seq<Seq<char>>>>,
}

impl View for LinuxDevice {
    type V = LinuxDeviceView;

    open spec fn view(&self) -> LinuxDeviceView {
        LinuxDeviceView {
            path: self.path@,
            typ: self.typ,
            major: self.major,
            minor: self.minor,
        }
    }
}

impl View for LinuxDeviceCgroup {
    type V = LinuxDeviceCgroupView;

    open spec fn view(&self) -> LinuxDeviceCgroupView {
        LinuxDeviceCgroupView {
            allow: self.allow,
            typ: self.typ,
            major: self.major,
            minor: self.minor,
            access: match self.access {
                Some(access) => Some(access@),
                None => None,
            },
        }
    }
}

/// The device nodes of a list, as contracts see them.
pub open spec fn device_views(devices: Seq<LinuxDevice>) -> Seq<LinuxDeviceView> {
    devices.map_values(|d: LinuxDevice| d@)
}

/// The device rules of a list, as contracts see them.
pub open spec fn rule_views(rules: Seq<LinuxDeviceCgroup>) -> Seq<LinuxDeviceCgroupView> {
    rules.map_values(|d: LinuxDeviceCgroup| d@)
}

/// The texts of a list, as contracts see them.
pub open spec fn text_views(texts: Seq<String>) -> Seq<Seq<char>> {
    texts.map_values(|t: String| t@)
}

impl View for LinuxResources {
    type V = Option<Seq<LinuxDeviceCgroupView>>;

    open spec fn view(&self) -> Option<Seq<LinuxDeviceCgroupView>> {
        match self.devices {
            Some(rules) => Some(rule_views(rules@)),
            None => None,
        }
    }
}

impl View for Linux {
    type V = LinuxView;

    open spec fn view(&self) -> LinuxView {
        LinuxView {
            devices: match self.devices {
                Some(devices) => Some(device_views(devices@)),
                None => None,
            },
            resources: match self.resources {
                Some(resources) => Some(resources@),
                None => None,
            },
        }
    }
}

impl View for Process {
    type V = Option<Seq<Seq<char>>>;

    open spec fn view(&self) -> Option<Seq<Seq<char>>> {
        match self.env {
            Some(env) => Some(text_views(env@)),
            None => None,
        }
    }
}

impl View for Spec {
    type V = SpecView;

    open spec fn view(&self) -> SpecView {
        SpecView {
            linux: match self.linux {
                Some(linux) => Some(linux@),
                None => None,
            },
            process: match self.process {
                Some(process) => Some(process@),
                None => None,
            },
        }
    }
}

} // verus!
