//! A preprocessor for WGSL shader source text.
//!
//! WGSL itself has no preprocessor, so this library supplies the usual
//! services over plain source text: inlining referenced modules, conditional
//! compilation guarded by defined names, and substitution of named macros,
//! including macros whose value is generated from native values through the
//! [`literal::WGSLType`] serializer.
//!
//! A [`ShaderBuilder`] owns the root module's path, a macro table, and a
//! store of module sources keyed by path; [`ShaderBuilder::build_source`]
//! runs the directive processor over the root module and applies the macro
//! substitutions once over the assembled text. The builder reads no files
//! itself: the caller supplies every module's text through
//! [`ShaderBuilder::add_module`], and a missing path surfaces as
//! [`process::Error::FileNotFound`] naming it.

use vstd::prelude::*;

pub mod laws;
pub mod literal;
pub mod number;
pub mod process;
pub mod table;
pub mod text;

pub use crate::literal::WGSLType;
pub use crate::process::Error;

use crate::process::{built_label, process_module, ModuleStore, SpecError};
use crate::table::{defs_insert, substituted, Defs, MacroTable};
use crate::text::{chars_string, str_chars, subvec, texts_view};

verus! {

/// The mathematical state of a builder: the root path, the macro table's
/// entries in insertion order, and the module texts by path.
pub ghost struct BuilderV {
    pub path: Seq<char>,
    pub defs: Defs,
    pub store: Map<Seq<char>, Seq<char>>,
}

/// What a build returns: the root module processed from the builder's
/// state, with every valued macro then substituted once over the whole
/// assembled text.
pub open spec fn built_source(b: BuilderV) -> Result<Seq<char>, SpecError> {
    match process_module(b.store, b.path, b.defs, Set::empty()) {
        Ok(p) => Ok(substituted(p.0, p.1)),
        Err(e) => Err(e),
    }
}

/// The macro table after `put_constant` has been applied to every pair of
/// `pairs` from index `k` on, in order.
pub open spec fn constants_applied<T: WGSLType>(
    defs: Defs,
    pairs: Seq<(String, T)>,
    k: int,
) -> Defs
    decreases pairs.len() - k
        when 0 <= k <= pairs.len()
{
    if k >= pairs.len() {
        defs
    } else {
        constants_applied(
            defs_insert(defs, pairs[k].0@, Some(pairs[k].1.spec_definition())),
            pairs,
            k + 1,
        )
    }
}

/// Wraps shader source text, changes it, and renders the final source.
pub struct ShaderBuilder {
    source_path: Vec<char>,
    definitions: MacroTable,
    modules: ModuleStore,
}

impl View for ShaderBuilder {
    type V = BuilderV;

    closed spec fn view(&self) -> BuilderV {
        BuilderV { path: self.source_path@, defs: self.definitions@, store: self.modules@ }
    }
}

impl ShaderBuilder {
    #[verifier::type_invariant]
    spec fn type_inv(&self) -> bool {
        self.definitions.wf()
    }

    /// Creates a new builder rooted at `source_path`, with no macros and no
    /// module texts yet.
    pub fn new(source_path: &str) -> (r: ShaderBuilder)
        ensures
            r@.path == source_path@,
            r@.defs == Seq::<(Seq<char>, Option<Seq<char>>)>::empty(),
            r@.store == Map::<Seq<char>, Seq<char>>::empty(),
    {
        ShaderBuilder {
            source_path: str_chars(source_path),
            definitions: MacroTable::new(),
            modules: ModuleStore::new(),
        }
    }

    /// Supplies the raw text of the module stored under `path`. The builder
    /// reads no files; every module the build will reference, the root one
    /// included, is handed in this way.
    pub fn add_module(self, path: &str, text: &str) -> (r: ShaderBuilder)
        ensures
            r@.path == self@.path,
            r@.defs == self@.defs,
            r@.store == self@.store.insert(path@, text@),
    {
        proof {
            use_type_invariant(&self);
        }
        let ShaderBuilder { source_path, definitions, mut modules } = self;
        modules.insert(str_chars(path), str_chars(text));
        ShaderBuilder { source_path, definitions, modules }
    }

    /// Defines `name` as a bare flag, for conditional compilation.
    pub fn define(self, name: &str) -> (r: ShaderBuilder)
        ensures
            r@.path == self@.path,
            r@.defs == defs_insert(self@.defs, name@, None),
            r@.store == self@.store,
    {
        proof {
            use_type_invariant(&self);
        }
        let ShaderBuilder { source_path, mut definitions, modules } = self;
        definitions.insert(str_chars(name), None);
        ShaderBuilder { source_path, definitions, modules }
    }

    /// Defines `name` as a constant whose replacement text is the WGSL
    /// literal for `value`.
    pub fn put_constant<T: WGSLType>(self, name: &str, value: T) -> (r: ShaderBuilder)
        ensures
            r@.path == self@.path,
            r@.defs == defs_insert(self@.defs, name@, Some(value.spec_definition())),
            r@.store == self@.store,
    {
        proof {
            use_type_invariant(&self);
        }
        let ShaderBuilder { source_path, mut definitions, modules } = self;
        let text = value.string_definition();
        definitions.insert(str_chars(name), Some(str_chars(text.as_str())));
        ShaderBuilder { source_path, definitions, modules }
    }

    /// Calls [`ShaderBuilder::put_constant`] for every (name, value) pair,
    /// in order.
    pub fn put_constant_map<T: WGSLType + Copy>(self, constants: &Vec<(String, T)>) -> (r:
        ShaderBuilder)
        ensures
            r@.path == self@.path,
            r@.defs == constants_applied(self@.defs, constants@, 0),
            r@.store == self@.store,
    {
        proof {
            use_type_invariant(&self);
        }
        let ghost pairs = constants@;
        let ghost defs0 = self@.defs;
        let ghost path0 = self@.path;
        let ghost store0 = self@.store;
        let mut cur = self;
        let mut k: usize = 0;
        #[verifier::loop_isolation(false)]
        while k < constants.len()
            invariant
                k <= pairs.len(),
                cur@.path == path0,
                cur@.store == store0,
                constants_applied(defs0, pairs, 0) == constants_applied(cur@.defs, pairs, k as int),
            decreases pairs.len() - k,
        {
            cur = cur.put_constant(constants[k].0.as_str(), constants[k].1);
            k = k + 1;
        }
        cur
    }

    /// Defines `name` as a fixed-size array literal: the element type and
    /// count, then every element's definition text, each with a trailing
    /// comma.
    pub fn put_array_definition<T: WGSLType>(self, name: &str, array: &Vec<T>) -> (r: ShaderBuilder)
        ensures
            r@.path == self@.path,
            r@.defs == defs_insert(
                self@.defs,
                name@,
                Some(
                    crate::literal::spec_array_text(
                        T::spec_wgsl_type_name(),
                        array@.map_values(|v: T| v.spec_definition()),
                    ),
                ),
            ),
            r@.store == self@.store,
    {
        proof {
            use_type_invariant(&self);
        }
        let ShaderBuilder { source_path, mut definitions, modules } = self;
        let text = crate::literal::array_definition_text(array);
        definitions.insert(str_chars(name), Some(text));
        ShaderBuilder { source_path, definitions, modules }
    }

    /// Defines a macro named after `T`'s WGSL type name whose replacement
    /// text is `T`'s declaration, so that a placeholder `define` line for
    /// the type becomes its declaration statement.
    pub fn put_struct_definition<T: WGSLType>(self) -> (r: ShaderBuilder)
        ensures
            r@.path == self@.path,
            r@.defs == defs_insert(
                self@.defs,
                T::spec_wgsl_type_name(),
                Some(T::spec_declaration()),
            ),
            r@.store == self@.store,
    {
        proof {
            use_type_invariant(&self);
        }
        let ShaderBuilder { source_path, mut definitions, modules } = self;
        let name = T::wgsl_type_name();
        let declaration = T::declaration();
        definitions.insert(str_chars(name.as_str()), Some(str_chars(declaration.as_str())));
        ShaderBuilder { source_path, definitions, modules }
    }

    /// Generates the final WGSL source from all previous calls on this
    /// builder: the root module processed, with all macro substitutions
    /// applied once over the assembled text. Reading the builder's state
    /// only, it can be called again after further changes.
    pub fn build_source(&self) -> (r: Result<String, Error>)
        ensures
            match r {
                Ok(s) => built_source(self@) == Ok::<Seq<char>, SpecError>(s@),
                Err(e) => built_source(self@) == Err::<Seq<char>, SpecError>(e@),
            },
    {
        proof {
            use_type_invariant(self);
        }
        let path = subvec(&self.source_path, 0, self.source_path.len());
        let mut working = self.definitions.clone_table();
        let chain: Vec<Vec<char>> = Vec::new();
        proof {
            assert(path@ =~= self.source_path@);
            self.modules.lemma_dom_finite();
            assert(texts_view(chain@) =~= Seq::<Seq<char>>::empty());
            assert(texts_view(chain@).to_set() =~= Set::<Seq<char>>::empty());
        }
        match crate::process::load_module(&self.modules, &path, &mut working, &chain) {
            Err(e) => Err(e),
            Ok(text) => {
                let final_text = working.substitute(text);
                Ok(chars_string(&final_text))
            },
        }
    }

    /// The label of the root module: its path's file name without the
    /// extension, as a downstream shader-module descriptor names it.
    pub fn label(&self) -> (r: String)
        ensures
            r@ == built_label(self@.path),
    {
        crate::process::label_of_path(&self.source_path)
    }
}

} // verus!
