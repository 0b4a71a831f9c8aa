use vstd::prelude::*;
use vstd::string::*;

verus! {

/// Scaffolding a new project; not supported yet.
pub struct InitCommand {}

/// A build request: where to read the sources and where to write the site.
pub struct BuildCommand {
    pub dest: String,
    pub source: String,
    pub includes: String,
    pub layouts: String,
    pub articles: String,
    pub js: String,
}

pub ghost struct BuildCommandV {
    pub dest: Seq<char>,
    pub source: Seq<char>,
    pub includes: Seq<char>,
    pub layouts: Seq<char>,
    pub articles: Seq<char>,
    pub js: Seq<char>,
}

impl View for BuildCommand {
    type V = BuildCommandV;

    open spec fn view(&self) -> BuildCommandV {
        BuildCommandV {
            dest: self.dest@,
            source: self.source@,
            includes: self.includes@,
            layouts: self.layouts@,
            articles: self.articles@,
            js: self.js@,
        }
    }
}

/// The customary directory layout.
pub open spec fn spec_build_command_default() -> BuildCommandV {
    BuildCommandV {
        dest: "./_output/"@,
        source: "_source/"@,
        includes: "_include/"@,
        layouts: "_layouts/"@,
        articles: "_articles/"@,
        js: "_js/"@,
    }
}

impl Default for BuildCommand {
    fn default() -> (r: Self)
        ensures
            r@ == spec_build_command_default(),
    {
        BuildCommand {
            dest: String::from_str("./_output/"),
            source: String::from_str("_source/"),
            includes: String::from_str("_include/"),
            layouts: String::from_str("_layouts/"),
            articles: String::from_str("_articles/"),
            js: String::from_str("_js/"),
        }
    }
}

/// The subcommands of the command line.
#[allow(non_camel_case_types)]
pub enum SubCommands {
    INIT(InitCommand),
    BUILD(BuildCommand),
}

impl InitCommand {
    /// Project scaffolding is not supported: the request is refused with
    /// the reason.
    pub fn run(self) -> (r: Result<BuildCommand, String>)
        ensures
            r matches Err(m) && m@ == "just working on build for now"@,
    {
        Err(String::from_str("just working on build for now"))
    }
}

impl SubCommands {
    /// Resolves the chosen subcommand: a build request is handed back to be
    /// carried out; anything else is refused with the reason.
    pub fn run(self) -> (r: Result<BuildCommand, String>)
        ensures
            match self {
                SubCommands::INIT(_) => r matches Err(m) && m@
                    == "just working on build for now"@,
                SubCommands::BUILD(c) => r matches Ok(b) && b@ == c@,
            },
    {
        match self {
            SubCommands::INIT(x) => x.run(),
            SubCommands::BUILD(x) => Ok(x),
        }
    }
}

} // verus!
