//! System information: the machine's names, versions and CPU count, and the instance
//! metadata of the cloud it runs on, shown as one group of key-value pairs.
use crate::text::{decimal, push_decimal};
use vstd::prelude::*;

verus! {

/// The metadata of the cloud instance the recording ran on.
#[derive(Debug, Clone)]
pub struct EC2Metadata {
    pub instance_id: String,
    pub local_hostname: String,
    pub ami_id: String,
    pub region: String,
    pub instance_type: String,
}

/// The system a recording ran on.
#[derive(Debug, Clone)]
pub struct SystemInfo {
    pub system_name: String,
    pub kernel_version: String,
    pub os_version: String,
    pub host_name: String,
    pub total_cpus: usize,
    pub instance_metadata: EC2Metadata,
}

impl EC2Metadata {
    /// Metadata with every field empty.
    pub fn new() -> (r: Self)
        ensures
            r.instance_id@ == Seq::<char>::empty(),
            r.local_hostname@ == Seq::<char>::empty(),
            r.ami_id@ == Seq::<char>::empty(),
            r.region@ == Seq::<char>::empty(),
            r.instance_type@ == Seq::<char>::empty(),
    {
        EC2Metadata {
            instance_id: String::new(),
            local_hostname: String::new(),
            ami_id: String::new(),
            region: String::new(),
            instance_type: String::new(),
        }
    }

    /// The metadata recorded when the instance metadata service cannot be reached: "N/A"
    /// in every field.
    pub fn not_available() -> (r: Self)
        ensures
            r.instance_id@ == "N/A"@,
            r.local_hostname@ == "N/A"@,
            r.ami_id@ == "N/A"@,
            r.region@ == "N/A"@,
            r.instance_type@ == "N/A"@,
    {
        EC2Metadata {
            instance_id: "N/A".to_string(),
            local_hostname: "N/A".to_string(),
            ami_id: "N/A".to_string(),
            region: "N/A".to_string(),
            instance_type: "N/A".to_string(),
        }
    }
}

/// The key-value pairs that show a system, in order.
pub open spec fn system_info_pairs(s: SystemInfo) -> Seq<(Seq<char>, Seq<char>)> {
    seq![
        ("System Name"@, s.system_name@),
        ("OS Version"@, s.os_version@),
        ("Kernel Version"@, s.kernel_version@),
        ("Hostname"@, s.host_name@),
        ("CPUs"@, decimal(s.total_cpus as nat)),
        ("Instance ID"@, s.instance_metadata.instance_id@),
        ("Region"@, s.instance_metadata.region@),
        ("Instance Type"@, s.instance_metadata.instance_type@),
        ("AMI ID"@, s.instance_metadata.ami_id@),
        ("Local Hostname"@, s.instance_metadata.local_hostname@),
    ]
}

pub open spec fn pairs_view(v: Seq<(String, String)>) -> Seq<(Seq<char>, Seq<char>)> {
    v.map_values(|p: (String, String)| (p.0@, p.1@))
}

impl SystemInfo {
    /// A system with empty names, no CPUs and empty metadata.
    pub fn new() -> (r: Self)
        ensures
            r.system_name@ == Seq::<char>::empty(),
            r.kernel_version@ == Seq::<char>::empty(),
            r.os_version@ == Seq::<char>::empty(),
            r.host_name@ == Seq::<char>::empty(),
            r.total_cpus == 0,
            r.instance_metadata.instance_id@ == Seq::<char>::empty(),
            r.instance_metadata.local_hostname@ == Seq::<char>::empty(),
            r.instance_metadata.ami_id@ == Seq::<char>::empty(),
            r.instance_metadata.region@ == Seq::<char>::empty(),
            r.instance_metadata.instance_type@ == Seq::<char>::empty(),
    {
        SystemInfo {
            system_name: String::new(),
            kernel_version: String::new(),
            os_version: String::new(),
            host_name: String::new(),
            total_cpus: 0,
            instance_metadata: EC2Metadata::new(),
        }
    }

    /// The names of the raw data files this data type reads.
    pub fn compatible_filenames() -> (r: Vec<&'static str>)
        ensures
            r@.len() == 1,
            r@[0]@ == "system_info"@,
    {
        vec!["system_info"]
    }

    /// The system as key-value pairs: its names and versions, its CPU count in decimal and
    /// its instance metadata, in the order shown.
    pub fn key_values(&self) -> (r: Vec<(String, String)>)
        ensures
            pairs_view(r@) == system_info_pairs(*self),
    {
        let mut cpus = String::new();
        push_decimal(&mut cpus, self.total_cpus as u64);
        let r = vec![
            ("System Name".to_string(), self.system_name.clone()),
            ("OS Version".to_string(), self.os_version.clone()),
            ("Kernel Version".to_string(), self.kernel_version.clone()),
            ("Hostname".to_string(), self.host_name.clone()),
            ("CPUs".to_string(), cpus),
            ("Instance ID".to_string(), self.instance_metadata.instance_id.clone()),
            ("Region".to_string(), self.instance_metadata.region.clone()),
            ("Instance Type".to_string(), self.instance_metadata.instance_type.clone()),
            ("AMI ID".to_string(), self.instance_metadata.ami_id.clone()),
            ("Local Hostname".to_string(), self.instance_metadata.local_hostname.clone()),
        ];
        assert(pairs_view(r@) =~= system_info_pairs(*self));
        r
    }
}

} // verus!
