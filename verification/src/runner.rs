//! Configuration builder for the virtual machine that hosts the sandboxed
//! application, and the shared-directory descriptors handed to the agent
//! protocol's mount requests.
//!
//! Launching the VM process itself is an external concern; this module only
//! accumulates the configuration and produces descriptor values.
use vstd::prelude::*;
use vstd::string::StringExecFns;

verus! {

/// Distinguishes system-, user- and app-scoped shared directories.
#[derive(Debug, Clone, Copy, PartialEq, Eq, Structural)]
pub enum QemuSharedDirType {
    FlatpakSystemDir,
    FlatpakUserDir,
    FlatpakAppDir,
}

/// Security model under which a shared directory may be exported.
#[derive(Debug, Clone, Copy, PartialEq, Eq, Structural)]
pub enum QemuSharedDirSecurity {
    Passthrough,
    Mapped,
    NoSecurityModel,
}

/// Descriptor of one host directory to be made visible inside the guest.
/// `tag` correlates the descriptor with the transport-level mount point set
/// up by the VM launch; the protocol layer never invents or validates it
/// beyond the builder's numbering scheme.
#[derive(Debug, PartialEq)]
pub struct QemuSharedDir {
    pub dir_type: QemuSharedDirType,
    pub app_name: String,
    pub source: String,
    pub tag: String,
    pub readonly: bool,
}

/// Spec-level model of a shared-directory descriptor.
pub ghost struct SharedDirV {
    pub dir_type: QemuSharedDirType,
    pub app_name: Seq<char>,
    pub source: Seq<char>,
    pub tag: Seq<char>,
    pub readonly: bool,
}

impl View for QemuSharedDir {
    type V = SharedDirV;

    open spec fn view(&self) -> SharedDirV {
        SharedDirV {
            dir_type: self.dir_type,
            app_name: self.app_name@,
            source: self.source@,
            tag: self.tag@,
            readonly: self.readonly,
        }
    }
}

/// Spec-level model of the VM configuration under construction.
pub ghost struct QemuRunnerV {
    pub name: Seq<char>,
    pub vcpu_num: int,
    pub ram_mb: int,
    pub template_path: Seq<char>,
    pub kernel: Seq<char>,
    pub agent_sock_path: Option<Seq<char>>,
    pub qmp_sock_path: Option<Seq<char>>,
    pub network: bool,
    pub audio: bool,
    pub shared_dirs: Seq<SharedDirV>,
}

/// Spec-level image of an optional path.
pub open spec fn opt_path_view(o: Option<String>) -> Option<Seq<char>> {
    match o {
        Some(s) => Some(s@),
        None => None,
    }
}

/// Spec-level image of a descriptor list.
pub open spec fn dirs_view(v: Seq<QemuSharedDir>) -> Seq<SharedDirV> {
    Seq::new(v.len(), |i: int| v[i]@)
}

/// Builder for the VM configuration: name, resources, endpoint paths,
/// device switches, and the shared directories with their generated mount
/// tags.
#[derive(Debug, PartialEq)]
pub struct QemuRunner {
    name: String,
    vcpu_num: u32,
    ram_mb: u32,
    template_path: String,
    kernel: String,
    agent_sock_path: Option<String>,
    qmp_sock_path: Option<String>,
    network: bool,
    audio: bool,
    shared_dirs: Vec<QemuSharedDir>,
}

impl View for QemuRunner {
    type V = QemuRunnerV;

    closed spec fn view(&self) -> QemuRunnerV {
        QemuRunnerV {
            name: self.name@,
            vcpu_num: self.vcpu_num as int,
            ram_mb: self.ram_mb as int,
            template_path: self.template_path@,
            kernel: self.kernel@,
            agent_sock_path: opt_path_view(self.agent_sock_path),
            qmp_sock_path: opt_path_view(self.qmp_sock_path),
            network: self.network,
            audio: self.audio,
            shared_dirs: dirs_view(self.shared_dirs@),
        }
    }
}

impl QemuRunner {
    /// A fresh configuration: one processor, a gigabyte of memory, the
    /// stock template and kernel images, no endpoints, network and audio
    /// on, and no shared directories.
    pub fn new(name: String) -> (r: QemuRunner)
        ensures
            r@ == (QemuRunnerV {
                name: name@,
                vcpu_num: 1,
                ram_mb: 1024,
                template_path: "/usr/share/flatkvm/template.qcow2"@,
                kernel: "/usr/share/flatkvm/vmlinuz.flatkvm"@,
                agent_sock_path: None,
                qmp_sock_path: None,
                network: true,
                audio: true,
                shared_dirs: Seq::<SharedDirV>::empty(),
            }),
    {
        let r = QemuRunner {
            name: name,
            vcpu_num: 1,
            ram_mb: 1024,
            template_path: String::from_str("/usr/share/flatkvm/template.qcow2"),
            kernel: String::from_str("/usr/share/flatkvm/vmlinuz.flatkvm"),
            agent_sock_path: None,
            qmp_sock_path: None,
            network: true,
            audio: true,
            shared_dirs: Vec::new(),
        };
        proof {
            assert(dirs_view(r.shared_dirs@) =~= Seq::<SharedDirV>::empty());
        }
        r
    }

    /// Sets the number of virtual processors.
    pub fn vcpu_num(self, num: u32) -> (r: Self)
        ensures
            r@ == (QemuRunnerV { vcpu_num: num as int, ..self@ }),
    {
        let mut s = self;
        s.vcpu_num = num;
        s
    }

    /// Sets the memory size, in megabytes.
    pub fn ram_mb(self, mb: u32) -> (r: Self)
        ensures
            r@ == (QemuRunnerV { ram_mb: mb as int, ..self@ }),
    {
        let mut s = self;
        s.ram_mb = mb;
        s
    }

    /// Sets the path of the listening endpoint the agent channel dials.
    pub fn agent_sock_path(self, path: String) -> (r: Self)
        ensures
            r@ == (QemuRunnerV { agent_sock_path: Some(path@), ..self@ }),
    {
        let mut s = self;
        s.agent_sock_path = Some(path);
        s
    }

    /// Sets the path of the hypervisor control endpoint.
    pub fn qmp_sock_path(self, path: String) -> (r: Self)
        ensures
            r@ == (QemuRunnerV { qmp_sock_path: Some(path@), ..self@ }),
    {
        let mut s = self;
        s.qmp_sock_path = Some(path);
        s
    }

    /// Switches audio on or off.
    pub fn audio(self, audio: bool) -> (r: Self)
        ensures
            r@ == (QemuRunnerV { audio: audio, ..self@ }),
    {
        let mut s = self;
        s.audio = audio;
        s
    }

    /// Switches networking on or off.
    pub fn network(self, network: bool) -> (r: Self)
        ensures
            r@ == (QemuRunnerV { network: network, ..self@ }),
    {
        let mut s = self;
        s.network = network;
        s
    }

    /// Adds one shared directory. The descriptor carries the builder's
    /// application name and a mount tag numbered by the directory's
    /// position: `shareddir0`, `shareddir1`, and so on.
    pub fn shared_dir(self, dir_type: QemuSharedDirType, source: String, readonly: bool) -> (r:
        Self)
        ensures
            r@ == (QemuRunnerV {
                shared_dirs: self@.shared_dirs.push(
                    SharedDirV {
                        dir_type: dir_type,
                        app_name: self@.name,
                        source: source@,
                        tag: "shareddir"@ + crate::codec::dec_digits(
                            self@.shared_dirs.len() as int,
                        ),
                        readonly: readonly,
                    },
                ),
                ..self@
            }),
    {
        let mut s = self;
        let lastdir = s.shared_dirs.len();
        let mut tag_chars: Vec<char> = Vec::new();
        crate::codec::push_lit(&mut tag_chars, "shareddir");
        crate::codec::push_dec(&mut tag_chars, lastdir as u64);
        let tag = crate::codec::chars_to_string(&tag_chars);
        let dir = QemuSharedDir {
            dir_type: dir_type,
            app_name: s.name.clone(),
            source: source,
            tag: tag,
            readonly: readonly,
        };
        s.shared_dirs.push(dir);
        proof {
            assert(dirs_view(s.shared_dirs@) =~= self@.shared_dirs.push(
                SharedDirV {
                    dir_type: dir_type,
                    app_name: self@.name,
                    source: source@,
                    tag: "shareddir"@ + crate::codec::dec_digits(self@.shared_dirs.len() as int),
                    readonly: readonly,
                },
            ));
        }
        s
    }

    /// Hands the accumulated shared-directory descriptors out.
    pub fn get_shared_dirs(self) -> (r: Vec<QemuSharedDir>)
        ensures
            dirs_view(r@) == self@.shared_dirs,
    {
        self.shared_dirs
    }

    /// The application name the configuration was created with.
    pub fn get_name(&self) -> (r: &String)
        ensures
            r@ == self@.name,
    {
        &self.name
    }

    /// The configured number of virtual processors.
    pub fn get_vcpu_num(&self) -> (r: u32)
        ensures
            r as int == self@.vcpu_num,
    {
        self.vcpu_num
    }

    /// The configured memory size, in megabytes.
    pub fn get_ram_mb(&self) -> (r: u32)
        ensures
            r as int == self@.ram_mb,
    {
        self.ram_mb
    }

    /// The disk template image path.
    pub fn get_template_path(&self) -> (r: &String)
        ensures
            r@ == self@.template_path,
    {
        &self.template_path
    }

    /// The kernel image path.
    pub fn get_kernel(&self) -> (r: &String)
        ensures
            r@ == self@.kernel,
    {
        &self.kernel
    }

    /// The agent endpoint path, if one was set.
    pub fn get_agent_sock_path(&self) -> (r: &Option<String>)
        ensures
            opt_path_view(*r) == self@.agent_sock_path,
    {
        &self.agent_sock_path
    }

    /// The hypervisor control endpoint path, if one was set.
    pub fn get_qmp_sock_path(&self) -> (r: &Option<String>)
        ensures
            opt_path_view(*r) == self@.qmp_sock_path,
    {
        &self.qmp_sock_path
    }

    /// Whether networking is on.
    pub fn get_network(&self) -> (r: bool)
        ensures
            r == self@.network,
    {
        self.network
    }

    /// Whether audio is on.
    pub fn get_audio(&self) -> (r: bool)
        ensures
            r == self@.audio,
    {
        self.audio
    }

    /// Borrows the accumulated shared-directory descriptors.
    pub fn view_shared_dirs(&self) -> (r: &Vec<QemuSharedDir>)
        ensures
            dirs_view(r@) == self@.shared_dirs,
    {
        &self.shared_dirs
    }
}

} // verus!
