//! A combined compositor configuration that sources several theme modules at once.

use vstd::prelude::*;
use vstd::string::*;
use crate::index::Theme;
use crate::text::{lowercase, lower_of, standard_name, standardize, swap_char, file_name_of};

verus! {

/// A theme module: a directory holding a `theme.conf`.
pub struct Module {
    pub name: String,
    pub theme: Option<Theme>,
    pub path: String,
}

/// The modules of a combined configuration and the file it is written to.
pub struct Config {
    pub modules: Vec<Module>,
    pub path: String,
}

impl Module {
    /// A module in `path`, named after the last component of the path.
    pub fn new(theme: Option<Theme>, path: String) -> (r: Module)
        ensures
            r.name@ == file_name_of(path@),
            r.theme == theme,
            r.path == path,
    {
        let name = crate::text::file_name(path.as_str());
        Module { name, theme, path }
    }
}

/// The key a module goes by: the standard form of its theme's name, else its directory name.
pub open spec fn module_key(m: Module) -> Seq<char> {
    match m.theme {
        Some(t) => standard_name(t.name@),
        None => file_name_of(m.path@),
    }
}

/// The names of a list of modules.
pub open spec fn module_names(v: Seq<Module>) -> Seq<Seq<char>> {
    v.map_values(|m: Module| m.name@)
}

/// The three sections of a combined configuration for `ms`.
pub open spec fn modules_line(ms: Seq<Module>) -> Seq<char>
    decreases ms.len(),
{
    if ms.len() == 0 {
        Seq::empty()
    } else {
        modules_line(ms.drop_last()) + module_key(ms.last()) + seq![',']
    }
}

pub open spec fn variables_lines(ms: Seq<Module>) -> Seq<char>
    decreases ms.len(),
{
    if ms.len() == 0 {
        Seq::empty()
    } else {
        variables_lines(ms.drop_last()) + seq!['$'] + swap_char(lower_of(module_key(ms.last())), ' ', '_') + seq!['='] + ms.last().path@ + seq!['\n']
    }
}

pub open spec fn import_lines(ms: Seq<Module>) -> Seq<char>
    decreases ms.len(),
{
    if ms.len() == 0 {
        Seq::empty()
    } else {
        import_lines(ms.drop_last()) + "source="@ + ms.last().path@ + "/theme.conf\n"@
    }
}

/// The text of a combined configuration.
pub open spec fn built(ms: Seq<Module>) -> Seq<char> {
    "# modules:"@ + modules_line(ms) + "\n"@ + "\n# variables\n"@ + variables_lines(ms) + "\n# variables end\n"@
        + "\n# import\n"@ + import_lines(ms) + "\n# import end\n"@
}

/// The key a module goes by.
fn key_of(m: &Module) -> (r: String)
    ensures
        r@ == module_key(*m),
{
    match &m.theme {
        Some(t) => standardize(t.name.as_str()),
        None => crate::text::file_name(m.path.as_str()),
    }
}

impl Config {
    pub fn new() -> (r: Config)
        ensures
            r.modules@.len() == 0,
            r.path@.len() == 0,
    {
        Config { modules: Vec::new(), path: String::new() }
    }

    /// Adds a module unless one of the same name is there already.
    pub fn add_module(&mut self, module: Module) -> (r: Result<(), String>)
        ensures
            old(self).path == final(self).path,
            module_names(old(self).modules@).contains(module.name@) ==> r is Err && final(self).modules@ == old(self).modules@,
            !module_names(old(self).modules@).contains(module.name@) ==> r is Ok && final(self).modules@ == old(self).modules@.push(module),
    {
        let mut i: usize = 0;
        while i < self.modules.len()
            invariant
                i <= self.modules@.len(),
                self.modules@ == old(self).modules@,
                self.path == old(self).path,
                forall|j: int| 0 <= j < i ==> self.modules@[j].name@ != module.name@,
            decreases self.modules@.len() - i,
        {
            if self.modules[i].name == module.name {
                proof {
                    assert(module_names(self.modules@)[i as int] == module.name@);
                }
                let mut msg = "Module ".to_owned();
                msg.append(module.name.as_str());
                msg.append(" already exists");
                return Err(msg);
            }
            i += 1;
        }
        proof {
            assert forall|j: int| 0 <= j < module_names(self.modules@).len() implies module_names(self.modules@)[j] != module.name@ by {
                assert(module_names(self.modules@)[j] == self.modules@[j].name@);
            }
        }
        self.modules.push(module);
        Ok(())
    }

    /// Drops every module named like `module`.
    pub fn remove_module(&mut self, module: Module) -> (r: Result<(), String>)
        ensures
            r is Ok,
            final(self).path == old(self).path,
            final(self).modules@ == old(self).modules@.filter(|m: Module| m.name@ != module.name@),
    {
        let mut kept: Vec<Module> = Vec::new();
        let mut rest = self.modules.split_off(0);
        let ghost all = rest@;
        let ghost mut done: int = 0;
        proof {
            assert(all =~= old(self).modules@);
            reveal(Seq::filter);
            assert(all.subrange(0, 0).filter(|m: Module| m.name@ != module.name@) =~= Seq::<Module>::empty());
        }
        while rest.len() > 0
            invariant
                0 <= done <= all.len(),
                rest@ == all.subrange(done, all.len() as int),
                kept@ == all.subrange(0, done).filter(|m: Module| m.name@ != module.name@),
            decreases rest@.len(),
        {
            let m = rest.remove(0);
            proof {
                assert(all.subrange(0, done + 1).drop_last() =~= all.subrange(0, done));
                assert(m == all[done]);
                reveal(Seq::filter);
            }
            if m.name != module.name {
                kept.push(m);
            }
            proof {
                done = done + 1;
                assert(rest@ =~= all.subrange(done, all.len() as int));
            }
        }
        proof {
            assert(all.subrange(0, done) =~= all);
        }
        self.modules = kept;
        Ok(())
    }

    /// The text of the combined configuration: a `# modules:` line naming the modules, a
    /// variable holding each module's path, and a line sourcing each module's `theme.conf`.
    pub fn build(&mut self) -> (r: String)
        ensures
            *final(self) == *old(self),
            r@ == built(old(self).modules@),
    {
        let mut head = "# modules:".to_owned();
        let mut vars = String::new();
        let mut imports = String::new();
        let mut i: usize = 0;
        while i < self.modules.len()
            invariant
                i <= self.modules@.len(),
                *self == *old(self),
                head@ == "# modules:"@ + modules_line(self.modules@.subrange(0, i as int)),
                vars@ == variables_lines(self.modules@.subrange(0, i as int)),
                imports@ == import_lines(self.modules@.subrange(0, i as int)),
            decreases self.modules@.len() - i,
        {
            let m = &self.modules[i];
            let key = key_of(m);
            proof {
                let s = self.modules@.subrange(0, i + 1);
                assert(s.drop_last() =~= self.modules@.subrange(0, i as int));
                assert(s.last() == *m);
                reveal_strlit(",");
                reveal_strlit("$");
                reveal_strlit("=");
                reveal_strlit("\n");
                reveal_strlit("_");
                reveal_strlit("source=");
                reveal_strlit("/theme.conf\n");
            }
            head.append(key.as_str());
            head.append(",");
            let lk = lowercase(key.as_str());
            let var = crate::text::replace_char(lk.as_str(), ' ', "_");
            vars.append("$");
            vars.append(var.as_str());
            vars.append("=");
            vars.append(m.path.as_str());
            vars.append("\n");
            imports.append("source=");
            imports.append(m.path.as_str());
            imports.append("/theme.conf\n");
            proof {
                assert(head@ =~= "# modules:"@ + modules_line(self.modules@.subrange(0, i + 1)));
                assert(vars@ =~= variables_lines(self.modules@.subrange(0, i + 1)));
                assert(imports@ =~= import_lines(self.modules@.subrange(0, i + 1)));
            }
            i += 1;
        }
        proof {
            assert(self.modules@.subrange(0, i as int) =~= self.modules@);
        }
        let mut r = head;
        r.append("\n");
        r.append("\n# variables\n");
        r.append(vars.as_str());
        r.append("\n# variables end\n");
        r.append("\n# import\n");
        r.append(imports.as_str());
        r.append("\n# import end\n");
        proof {
            reveal_strlit("\n");
            reveal_strlit("\n# variables\n");
            reveal_strlit("\n# variables end\n");
            reveal_strlit("\n# import\n");
            reveal_strlit("\n# import end\n");
            reveal_strlit("# modules:");
            assert(r@ =~= built(old(self).modules@));
        }
        r
    }
}

} // verus!
