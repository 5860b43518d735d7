//! The project scaffolder: collects the emitted query programs and
//! renders the manifest, the crate root, and the traversal module of a
//! small target project that links them as handlers. Writing the files
//! to disk happens at the program's edge; here the texts are built and
//! pinned down exactly.

use vstd::prelude::*;

verus! {

/// Scaffolds a target project for a set of emitted queries.
pub struct ProjectGenerator {
    project_name: String,
    output_dir: String,
    dependencies: Vec<(String, String)>,
    queries: Vec<(String, String)>,
}

/// The manifest text: package header, then the engine dependency, then
/// one line per extra dependency.
pub open spec fn cargo_toml_chars(name: Seq<char>, deps: Seq<(String, String)>) -> Seq<char> {
    "[package]\nname = \""@ + name + "\"\nversion = \"0.1.0\"\nedition = \"2021\"\n\n"@
        + "[dependencies]\nhelix-engine = { path = \"../helix-engine\" }\n"@
        + dep_lines_chars(deps)
}

/// One `name = "version"` line per dependency, in order.
pub open spec fn dep_lines_chars(deps: Seq<(String, String)>) -> Seq<char>
    decreases deps.len(),
{
    if deps.len() == 0 {
        Seq::empty()
    } else {
        dep_lines_chars(deps.drop_last()) + deps.last().0@ + " = \""@ + deps.last().1@
            + "\"\n"@
    }
}

/// One `pub use traversals::<name>;` line per query, in order.
pub open spec fn use_lines_chars(queries: Seq<(String, String)>) -> Seq<char>
    decreases queries.len(),
{
    if queries.len() == 0 {
        Seq::empty()
    } else {
        use_lines_chars(queries.drop_last()) + "pub use traversals::"@ + queries.last().0@
            + ";\n"@
    }
}

/// The crate root text: the module, then the re-export lines.
pub open spec fn lib_rs_chars(queries: Seq<(String, String)>) -> Seq<char> {
    "mod traversals;\n\n"@ + use_lines_chars(queries)
}

/// The query programs' bodies, one after the other.
pub open spec fn bodies_chars(queries: Seq<(String, String)>) -> Seq<char>
    decreases queries.len(),
{
    if queries.len() == 0 {
        Seq::empty()
    } else {
        bodies_chars(queries.drop_last()) + queries.last().1@ + "\n"@
    }
}

/// The traversal module text: the imports, then every program body.
pub open spec fn traversals_rs_chars(queries: Seq<(String, String)>) -> Seq<char> {
    "use helix_engine::graph_core::traversal::TraversalBuilder;\n"@
        + "use helix_engine::graph_core::traversal_steps::{SourceTraversalSteps, TraversalSteps};\n"@
        + "use helix_engine::storage_core::storage_core::HelixGraphStorage;\n\n"@
        + bodies_chars(queries)
}

impl ProjectGenerator {
    /// The project's name.
    pub closed spec fn spec_name(self) -> Seq<char> {
        self.project_name@
    }

    /// The output directory the caller will write under.
    pub closed spec fn spec_output_dir(self) -> Seq<char> {
        self.output_dir@
    }

    /// The extra dependency lines, in order.
    pub closed spec fn spec_deps(self) -> Seq<(String, String)> {
        self.dependencies@
    }

    /// The collected queries: name and emitted body, in order.
    pub closed spec fn spec_queries(self) -> Seq<(String, String)> {
        self.queries@
    }

    /// A scaffolder with no queries and no extra dependencies.
    pub fn new(project_name: &str, output_dir: &str) -> (r: Self)
        ensures
            r.spec_name() == project_name@,
            r.spec_output_dir() == output_dir@,
            r.spec_deps() == Seq::<(String, String)>::empty(),
            r.spec_queries() == Seq::<(String, String)>::empty(),
    {
        ProjectGenerator {
            project_name: project_name.to_owned(),
            output_dir: output_dir.to_owned(),
            dependencies: Vec::new(),
            queries: Vec::new(),
        }
    }

    /// Installs the collected queries.
    pub fn with_queries(self, queries: Vec<(String, String)>) -> (r: Self)
        ensures
            r.spec_name() == self.spec_name(),
            r.spec_output_dir() == self.spec_output_dir(),
            r.spec_deps() == self.spec_deps(),
            r.spec_queries() == queries@,
    {
        ProjectGenerator {
            project_name: self.project_name,
            output_dir: self.output_dir,
            dependencies: self.dependencies,
            queries,
        }
    }

    /// Records one more dependency line for the manifest.
    pub fn add_dependency(&mut self, name: &str, version: &str)
        ensures
            final(self).spec_name() == old(self).spec_name(),
            final(self).spec_output_dir() == old(self).spec_output_dir(),
            final(self).spec_queries() == old(self).spec_queries(),
            final(self).spec_deps().drop_last() == old(self).spec_deps(),
            final(self).spec_deps().len() == old(self).spec_deps().len() + 1,
            final(self).spec_deps().last().0@ == name@,
            final(self).spec_deps().last().1@ == version@,
    {
        self.dependencies.push((name.to_owned(), version.to_owned()));
        proof {
            assert(self.dependencies@.drop_last() =~= old(self).dependencies@);
        }
    }

    /// Renders the manifest text of the target project.
    pub fn generate_cargo_toml(&self) -> (r: String)
        ensures
            r@ == cargo_toml_chars(self.spec_name(), self.spec_deps()),
    {
        let mut s = String::new();
        s.append("[package]\nname = \"");
        s.append(self.project_name.as_str());
        s.append("\"\nversion = \"0.1.0\"\nedition = \"2021\"\n\n");
        s.append("[dependencies]\nhelix-engine = { path = \"../helix-engine\" }\n");
        let ghost head = s@;
        let n = self.dependencies.len();
        let mut i: usize = 0;
        while i < n
            invariant
                n == self.dependencies@.len(),
                i <= n,
                s@ == head + dep_lines_chars(self.dependencies@.take(i as int)),
            decreases n - i,
        {
            s.append(self.dependencies[i].0.as_str());
            s.append(" = \"");
            s.append(self.dependencies[i].1.as_str());
            s.append("\"\n");
            proof {
                assert(self.dependencies@.take(i + 1).drop_last()
                    =~= self.dependencies@.take(i as int));
                assert(s@ =~= head + dep_lines_chars(self.dependencies@.take(i + 1)));
            }
            i = i + 1;
        }
        proof {
            assert(self.dependencies@.take(n as int) =~= self.dependencies@);
            assert(s@ =~= cargo_toml_chars(self.spec_name(), self.spec_deps()));
        }
        s
    }

    /// Renders the crate root text of the target project.
    pub fn generate_lib_rs(&self) -> (r: String)
        ensures
            r@ == lib_rs_chars(self.spec_queries()),
    {
        let mut s = String::new();
        s.append("mod traversals;\n\n");
        let ghost head = s@;
        let n = self.queries.len();
        let mut i: usize = 0;
        while i < n
            invariant
                n == self.queries@.len(),
                i <= n,
                s@ == head + use_lines_chars(self.queries@.take(i as int)),
            decreases n - i,
        {
            s.append("pub use traversals::");
            s.append(self.queries[i].0.as_str());
            s.append(";\n");
            proof {
                assert(self.queries@.take(i + 1).drop_last() =~= self.queries@.take(i as int));
                assert(s@ =~= head + use_lines_chars(self.queries@.take(i + 1)));
            }
            i = i + 1;
        }
        proof {
            assert(self.queries@.take(n as int) =~= self.queries@);
            assert(s@ =~= lib_rs_chars(self.spec_queries()));
        }
        s
    }

    /// Renders the traversal module text of the target project.
    pub fn generate_traversal_module(&self) -> (r: String)
        ensures
            r@ == traversals_rs_chars(self.spec_queries()),
    {
        let mut s = String::new();
        s.append("use helix_engine::graph_core::traversal::TraversalBuilder;\n");
        s.append("use helix_engine::graph_core::traversal_steps::{SourceTraversalSteps, TraversalSteps};\n");
        s.append("use helix_engine::storage_core::storage_core::HelixGraphStorage;\n\n");
        let ghost head = s@;
        let n = self.queries.len();
        let mut i: usize = 0;
        while i < n
            invariant
                n == self.queries@.len(),
                i <= n,
                s@ == head + bodies_chars(self.queries@.take(i as int)),
            decreases n - i,
        {
            s.append(self.queries[i].1.as_str());
            s.append("\n");
            proof {
                assert(self.queries@.take(i + 1).drop_last() =~= self.queries@.take(i as int));
                assert(s@ =~= head + bodies_chars(self.queries@.take(i + 1)));
            }
            i = i + 1;
        }
        proof {
            assert(self.queries@.take(n as int) =~= self.queries@);
            assert(s@ =~= traversals_rs_chars(self.spec_queries()));
        }
        s
    }
}

} // verus!
