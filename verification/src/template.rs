//! The template of the virtual machine of an instance.

use vstd::prelude::*;
use vstd::string::*;
use crate::text::{decimal_chars, decimal_text, string_of};

verus! {

/// What the machine of an instance is made with.
#[derive(Debug, Clone)]
pub struct TemplateConfig {
    /// The worktree that is mounted into the machine.
    pub worktree_path: String,
    pub cpus: u32,
    pub memory: String,
    pub disk: String,
    /// A registry mirror for the container engine inside the machine.
    pub registry_mirror: Option<String>,
}

impl Default for TemplateConfig {
    /// Four processors, 8 GiB of memory, 50 GiB of disk, no worktree and no
    /// mirror.
    fn default() -> (r: TemplateConfig)
        ensures
            r.worktree_path@ == Seq::<char>::empty(),
            r.cpus == 4,
            r.memory@ == "8GiB"@,
            r.disk@ == "50GiB"@,
            r.registry_mirror is None,
    {
        TemplateConfig {
            worktree_path: String::new(),
            cpus: 4,
            memory: String::from_str("8GiB"),
            disk: String::from_str("50GiB"),
            registry_mirror: None,
        }
    }
}

impl TemplateConfig {
    /// The default machine for the worktree at `worktree_path`.
    pub fn new(worktree_path: &str) -> (r: TemplateConfig)
        ensures
            r.worktree_path@ == worktree_path@,
            r.cpus == 4,
            r.memory@ == "8GiB"@,
            r.disk@ == "50GiB"@,
            r.registry_mirror is None,
    {
        TemplateConfig {
            worktree_path: String::from_str(worktree_path),
            cpus: 4,
            memory: String::from_str("8GiB"),
            disk: String::from_str("50GiB"),
            registry_mirror: None,
        }
    }
}

/// The provisioning lines that set a registry mirror, up to its address.
pub const MIRROR_HEAD: &'static str = r#"
      # Configure Docker registry mirror
      mkdir -p /etc/docker
      cat <<'EOF' > /etc/docker/daemon.json
      {"registry-mirrors": [""#;

/// The provisioning lines that set a registry mirror, after its address.
pub const MIRROR_TAIL: &'static str = r#""]}
      EOF
      systemctl restart docker
"#;

/// The template up to the number of processors.
pub const TEMPLATE_HEAD: &'static str = r#"# fracta Lima VM template
# Auto-generated for worktree development

# VM configuration
cpus: "#;

/// The template between the number of processors and the memory.
pub const TEMPLATE_AFTER_CPUS: &'static str = r#"
memory: ""#;

/// The template between the memory and the disk.
pub const TEMPLATE_AFTER_MEMORY: &'static str = r#""
disk: ""#;

/// The template between the disk and the mounted worktree.
pub const TEMPLATE_AFTER_DISK: &'static str = r#""

# Use Ubuntu 24.04 LTS
images:
  - location: "https://cloud-images.ubuntu.com/releases/24.04/release/ubuntu-24.04-server-cloudimg-arm64.img"
    arch: "aarch64"
  - location: "https://cloud-images.ubuntu.com/releases/24.04/release/ubuntu-24.04-server-cloudimg-amd64.img"
    arch: "x86_64"

# Mount worktree directory
mounts:
  - location: ""#;

/// The template between the mounted worktree and the registry mirror: network, ports and the provisioning script.
pub const TEMPLATE_AFTER_MOUNT: &'static str = r#""
    writable: true
    sshfs:
      cache: true
      followSymlinks: true

# VM type: vz for Apple Silicon
vmType: "vz"
rosetta:
  enabled: true
  binfmt: true

# Network configuration
networks:
  - vzNAT: true

# Disable automatic port forwarding (use fracta forward instead)
portForwards:
  - ignore: true
    proto: any
    guestIP: 0.0.0.0

# Docker installation via containerd
containerd:
  system: false
  user: false

# Provisioning script for Docker
provision:
  - mode: system
    script: |
      #!/bin/bash
      set -eux -o pipefail

      # Ensure curl and certificates are available
      if ! command -v curl &> /dev/null; then
        apt-get update
        apt-get install -y --no-install-recommends curl ca-certificates
      fi

      # Install Docker if not present
      if ! command -v docker &> /dev/null; then
        curl -fsSL https://get.docker.com | sh
        usermod -aG docker "{{.User}}"
      fi

      # Allow passwordless sudo for the Lima user (development convenience)
      echo "{{.User}} ALL=(ALL) NOPASSWD:ALL" > /etc/sudoers.d/fracta-user
      chmod 0440 /etc/sudoers.d/fracta-user

      # Install docker-compose plugin if not present
      if ! docker compose version &> /dev/null; then
        DOCKER_CONFIG=${DOCKER_CONFIG:-/usr/local/lib/docker}
        mkdir -p $DOCKER_CONFIG/cli-plugins
        COMPOSE_VERSION=$(curl -s https://api.github.com/repos/docker/compose/releases/latest | grep '"tag_name"' | sed -E 's/.*"([^"]+)".*/\1/')
        ARCH=$(uname -m)
        curl -SL "https://github.com/docker/compose/releases/download/${COMPOSE_VERSION}/docker-compose-linux-${ARCH}" -o $DOCKER_CONFIG/cli-plugins/docker-compose
        chmod +x $DOCKER_CONFIG/cli-plugins/docker-compose
      fi

      # Install Node.js and npm if not present (agent-browser dependency)
      if ! command -v node &> /dev/null; then
        apt-get update
        apt-get install -y --no-install-recommends nodejs npm
      fi

      # Install Japanese fonts (Noto)
      if ! command -v fc-list &> /dev/null; then
        apt-get update
        apt-get install -y --no-install-recommends fontconfig
      fi
      if ! fc-list | grep -qi "Noto"; then
        apt-get update
        apt-get install -y --no-install-recommends \
          fonts-noto \
          fonts-noto-cjk \
          fonts-noto-color-emoji
        fc-cache -f -v
      fi

      # Install agent-browser and Chromium dependencies
      if ! command -v agent-browser &> /dev/null; then
        npm install -g agent-browser
      fi

      # Install browser binaries via agent-browser (uses Playwright under the hood)
      agent-browser install --with-deps

      # Install uv (official installer)
      if ! command -v uv &> /dev/null; then
        curl -LsSf https://astral.sh/uv/install.sh | env UV_INSTALL_DIR="/usr/local/bin" UV_NO_MODIFY_PATH=1 sh
      fi
"#;

/// The end of the template.
pub const TEMPLATE_END: &'static str = r#"
"#;

/// The lines that set the registry mirror `mirror`; nothing without one.
pub open spec fn mirror_block(mirror: Option<Seq<char>>) -> Seq<char> {
    match mirror {
        Some(address) => MIRROR_HEAD@ + address + MIRROR_TAIL@,
        None => Seq::empty(),
    }
}

/// The template of a machine with `cpus` processors, the given memory and
/// disk, the worktree mounted writable, and the registry mirror, if any, set
/// up by the provisioning script.
pub open spec fn template_text(
    worktree_path: Seq<char>,
    cpus: u32,
    memory: Seq<char>,
    disk: Seq<char>,
    mirror: Option<Seq<char>>,
) -> Seq<char> {
    TEMPLATE_HEAD@ + decimal_text(cpus as nat) + TEMPLATE_AFTER_CPUS@ + memory
        + TEMPLATE_AFTER_MEMORY@ + disk + TEMPLATE_AFTER_DISK@ + worktree_path
        + TEMPLATE_AFTER_MOUNT@ + mirror_block(mirror) + TEMPLATE_END@
}

/// Writes the template of the machine that `config` describes.
pub fn generate(config: &TemplateConfig) -> (r: String)
    ensures
        r@ == template_text(
            config.worktree_path@,
            config.cpus,
            config.memory@,
            config.disk@,
            match config.registry_mirror {
                Some(mirror) => Some(mirror@),
                None => None,
            },
        ),
{
    let mut block = String::new();
    match &config.registry_mirror {
        Some(mirror) => {
            block.append(MIRROR_HEAD);
            block.append(mirror.as_str());
            block.append(MIRROR_TAIL);
        },
        None => {},
    }
    let cpus = decimal_chars(config.cpus as u64);
    let mut out = String::from_str(TEMPLATE_HEAD);
    out.append(string_of(cpus.as_slice()).as_str());
    out.append(TEMPLATE_AFTER_CPUS);
    out.append(config.memory.as_str());
    out.append(TEMPLATE_AFTER_MEMORY);
    out.append(config.disk.as_str());
    out.append(TEMPLATE_AFTER_DISK);
    out.append(config.worktree_path.as_str());
    out.append(TEMPLATE_AFTER_MOUNT);
    out.append(block.as_str());
    out.append(TEMPLATE_END);
    out
}

} // verus!
