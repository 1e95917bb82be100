//! The historical-archive vault: era names and the index URLs that
//! list archived client and server binaries per era.
use vstd::prelude::*;
use vstd::string::StringExecFns;

verus! {

/// An era of archived game versions.
#[derive(Debug, Clone, Copy, PartialEq, Eq, Structural)]
pub enum MinecraftVersionType {
    PreClassic,
    Classic,
    Indev,
    Infdev,
    Alpha,
    Beta,
    Release,
    AprilFools,
}

impl MinecraftVersionType {
    /// The vault name of the era.
    pub open spec fn spec_name(&self) -> Seq<char> {
        match self {
            MinecraftVersionType::PreClassic => "pre-classic"@,
            MinecraftVersionType::Classic => "classic"@,
            MinecraftVersionType::Indev => "indev"@,
            MinecraftVersionType::Infdev => "infdev"@,
            MinecraftVersionType::Alpha => "alpha"@,
            MinecraftVersionType::Beta => "beta"@,
            MinecraftVersionType::AprilFools => "april-fools"@,
            MinecraftVersionType::Release => "release"@,
        }
    }

    /// Every era with an archived client, in vault order.
    pub fn client_versions() -> (r: Vec<MinecraftVersionType>)
        ensures
            r@ == seq![
                MinecraftVersionType::PreClassic,
                MinecraftVersionType::Classic,
                MinecraftVersionType::Indev,
                MinecraftVersionType::Infdev,
                MinecraftVersionType::Alpha,
                MinecraftVersionType::Beta,
                MinecraftVersionType::AprilFools,
                MinecraftVersionType::Release,
            ],
    {
        let r = vec![
            MinecraftVersionType::PreClassic,
            MinecraftVersionType::Classic,
            MinecraftVersionType::Indev,
            MinecraftVersionType::Infdev,
            MinecraftVersionType::Alpha,
            MinecraftVersionType::Beta,
            MinecraftVersionType::AprilFools,
            MinecraftVersionType::Release,
        ];
        assert(r@ =~= seq![
            MinecraftVersionType::PreClassic,
            MinecraftVersionType::Classic,
            MinecraftVersionType::Indev,
            MinecraftVersionType::Infdev,
            MinecraftVersionType::Alpha,
            MinecraftVersionType::Beta,
            MinecraftVersionType::AprilFools,
            MinecraftVersionType::Release,
        ]);
        r
    }

    /// The eras listed when browsing for servers. The vault lists the
    /// same eras for both binaries.
    pub fn server_versions() -> (r: Vec<MinecraftVersionType>)
        ensures
            r@ == seq![
                MinecraftVersionType::PreClassic,
                MinecraftVersionType::Classic,
                MinecraftVersionType::Indev,
                MinecraftVersionType::Infdev,
                MinecraftVersionType::Alpha,
                MinecraftVersionType::Beta,
                MinecraftVersionType::AprilFools,
                MinecraftVersionType::Release,
            ],
    {
        Self::client_versions()
    }

    /// The era's vault name.
    pub fn as_str(&self) -> (r: &'static str)
        ensures
            r@ == self.spec_name(),
    {
        match self {
            MinecraftVersionType::PreClassic => "pre-classic",
            MinecraftVersionType::Classic => "classic",
            MinecraftVersionType::Indev => "indev",
            MinecraftVersionType::Infdev => "infdev",
            MinecraftVersionType::Alpha => "alpha",
            MinecraftVersionType::Beta => "beta",
            MinecraftVersionType::AprilFools => "april-fools",
            MinecraftVersionType::Release => "release",
        }
    }

    /// The vault index page listing this era's client or server builds.
    pub fn get_url(&self, is_server: bool) -> (r: String)
        ensures
            r@ == "https://vault.omniarchive.uk/archive/java/"@ + (if is_server {
                "server"@
            } else {
                "client"@
            }) + seq!['-'] + self.spec_name() + "/index.html"@,
    {
        let mut url = String::from_str("https://vault.omniarchive.uk/archive/java/");
        if is_server {
            url.append("server");
        } else {
            url.append("client");
        }
        url.append("-");
        url.append(self.as_str());
        url.append("/index.html");
        proof {
            reveal_strlit("-");
            assert("-"@ =~= seq!['-']);
        }
        url
    }
}

} // verus!
