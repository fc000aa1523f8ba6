//! The context of a run of the Rust backend: the dictionary, the cyclic
//! reference groups found in it and the options.

use crate::code_gen::abi::output::{OutputTarget, OutputTargetView};
use crate::code_gen::abi::type_dict::{entry_named, lemma_position_of, position_of, TypeDict};
use crate::code_gen::abi::type_info::{
    ObjectEnumValueView, TypeInfo, TypeInfoView, TypeName, TypeNameView,
};
use crate::code_gen::abi::{result_view, CodeGenContext};
use crate::code_gen::error::{GenError, GenErrorView};
use crate::code_gen::rust::cycle_groups::{table_of, CycleGroups};
use crate::code_gen::rust::options::{rust_simple_type, RustOptions, RustOptionsView};
use crate::code_gen::rust::reach::cyclic;
use crate::code_gen::abi::type_dict::has_name;
use crate::code_gen::rust::type_graph::{lemma_all_resolved, reference_graph, unresolved_reference};
use crate::code_gen::utils::{push_char, snake_case};
use vstd::prelude::*;

verus! {

/// The first payload among the values that names no object of the
/// dictionary.
pub open spec fn first_bad_value(entries: Seq<TypeInfoView>, values: Seq<ObjectEnumValueView>) -> Option<
    Seq<char>,
>
    decreases values.len(),
{
    if values.len() == 0 {
        None
    } else {
        match first_bad_value(entries, values.drop_last()) {
            Some(n) => Some(n),
            None => match values.last() {
                ObjectEnumValueView::Simple(_) => None,
                ObjectEnumValueView::CustomType(n) => match entry_named(entries, n) {
                    Some(TypeInfoView::Object(_)) => None,
                    _ => Some(n),
                },
            },
        }
    }
}

/// The first payload of a tagged union among the first `n` types, in the
/// order of the dictionary and then of the values of a union, that names no
/// object of the dictionary.
pub open spec fn first_bad_payload(entries: Seq<TypeInfoView>, n: nat) -> Option<Seq<char>>
    decreases n,
{
    if n == 0 || n > entries.len() {
        None
    } else {
        match first_bad_payload(entries, (n - 1) as nat) {
            Some(x) => Some(x),
            None => match entries[n - 1] {
                TypeInfoView::ObjectEnum(e) => first_bad_value(entries, e.values),
                _ => None,
            },
        }
    }
}

/// The first payload in the dictionary that names no object of it.
pub open spec fn bad_payload(entries: Seq<TypeInfoView>) -> Option<Seq<char>> {
    first_bad_payload(entries, entries.len())
}

/// A package as a path of Rust modules: each dot becomes `::`.
pub open spec fn package_path(package: Seq<char>) -> Seq<char>
    decreases package.len(),
{
    if package.len() == 0 {
        Seq::empty()
    } else if package.last() == '.' {
        package_path(package.drop_last()) + "::"@
    } else {
        package_path(package.drop_last()).push(package.last())
    }
}

/// The path under which Rust code names a type of the dictionary.
pub open spec fn type_path(t: TypeInfoView) -> Seq<char> {
    "crate::"@ + package_path(t.package()) + "::"@ + t.name()
}

/// Two names are those of types of the dictionary that lie on a common
/// cycle of references.
pub open spec fn refs_cyclic(entries: Seq<TypeInfoView>, a: Seq<char>, b: Seq<char>) -> bool {
    match (position_of(entries, a), position_of(entries, b)) {
        (Some(i), Some(j)) => cyclic(reference_graph(entries), i, j),
        _ => false,
    }
}

/// The context of a run: what every writer reads.
pub struct RustContext {
    types_dict: TypeDict,
    options: RustOptions,
    cycle_groups: CycleGroups,
}

pub struct RustContextView {
    pub types: Seq<TypeInfoView>,
    pub options: RustOptionsView,
}

impl View for RustContext {
    type V = RustContextView;

    closed spec fn view(&self) -> RustContextView {
        RustContextView { types: self.types_dict@, options: self.options@ }
    }
}

impl RustContextView {
    /// The path of the module file of a package.
    pub open spec fn mod_file(self, package: Seq<char>, append_only: bool) -> OutputTargetView {
        let directory = self.options.output_dir + "/"@ + package + "/"@;
        OutputTargetView { directory: Some(directory), path: directory + "/mod.rs"@, append: append_only }
    }

    /// The path of the file of a type that has a file of its own.
    pub open spec fn type_file(self, t: TypeInfoView) -> OutputTargetView {
        OutputTargetView {
            directory: None,
            path: self.options.output_dir + "/"@ + t.package() + "/"@ + snake_case(t.name()) + ".rs"@,
            append: false,
        }
    }

    /// Where the text of a type goes: to the end of the module file of its
    /// package, or into a file of its own.
    pub open spec fn target(self, t: TypeInfoView) -> OutputTargetView {
        if self.options.single_file {
            self.mod_file(t.package(), true)
        } else {
            self.type_file(t)
        }
    }

    /// How Rust code names a type: a primitive by its spelling, a custom
    /// type by its path. A name that the dictionary lacks has none.
    pub open spec fn qualified_name(self, name: TypeNameView) -> Result<Seq<char>, GenErrorView> {
        match name {
            TypeNameView::Simple(t) => Ok(rust_simple_type(t)),
            TypeNameView::CustomType(n) => match entry_named(self.types, n) {
                Some(t) => Ok(type_path(t)),
                None => Err(GenErrorView::UnknownType(n)),
            },
        }
    }

    /// Whether the type `b`, referred to from within the type `a`, lies on
    /// a cycle of references with it.
    pub open spec fn is_cyclic_ref(self, a: Seq<char>, b: Seq<char>) -> bool {
        refs_cyclic(self.types, a, b)
    }
}

/// The context that a dictionary gives, or why it gives none: a reference
/// that names no type, or a payload of a tagged union that names no object.
pub open spec fn rust_context_of(types: Seq<TypeInfoView>, options: RustOptionsView) -> Result<
    RustContextView,
    GenErrorView,
> {
    match unresolved_reference(types) {
        Some(n) => Err(GenErrorView::UnknownType(n)),
        None => match bad_payload(types) {
            Some(n) => Err(GenErrorView::NotAnObject(n)),
            None => Ok(RustContextView { types, options }),
        },
    }
}

/// Once a payload that names no object has been met, it stays the first.
proof fn lemma_bad_value_stays(entries: Seq<TypeInfoView>, values: Seq<ObjectEnumValueView>, j: int, m: int)
    requires
        0 <= j <= m <= values.len(),
        first_bad_value(entries, values.take(j)) is Some,
    ensures
        first_bad_value(entries, values.take(m)) == first_bad_value(entries, values.take(j)),
    decreases m - j,
{
    if j < m {
        lemma_bad_value_stays(entries, values, j, m - 1);
        assert(values.take(m).drop_last() =~= values.take(m - 1));
    }
}

/// Once a payload that names no object has been met among the types, it
/// stays the first.
proof fn lemma_bad_payload_stays(entries: Seq<TypeInfoView>, n: nat, m: nat)
    requires
        n <= m <= entries.len(),
        first_bad_payload(entries, n) is Some,
    ensures
        first_bad_payload(entries, m) == first_bad_payload(entries, n),
    decreases m - n,
{
    if n < m {
        lemma_bad_payload_stays(entries, n, (m - 1) as nat);
    }
}

/// Looks for a payload of a tagged union that names no object.
fn check_payloads(types_dict: &TypeDict) -> (r: Result<(), GenError>)
    ensures
        match r {
            Ok(_) => bad_payload(types_dict@) is None,
            Err(e) => bad_payload(types_dict@) is Some && e@ == GenErrorView::NotAnObject(
                bad_payload(types_dict@).unwrap(),
            ),
        },
{
    let ghost entries = types_dict@;
    let n = types_dict.len();
    let mut i: usize = 0;
    while i < n
        invariant
            i <= n,
            n == entries.len(),
            entries == types_dict@,
            first_bad_payload(entries, i as nat) is None,
        decreases n - i,
    {
        if let TypeInfo::ObjectEnum(e) = types_dict.entry(i) {
            let ghost values = e@.values;
            let mut k: usize = 0;
            assert(values.take(0) =~= Seq::<ObjectEnumValueView>::empty());
            while k < e.values.len()
                invariant
                    k <= e.values.len(),
                    i < n,
                    n == entries.len(),
                    entries == types_dict@,
                    entries[i as int] == TypeInfoView::ObjectEnum(e@),
                    values == e@.values,
                    first_bad_payload(entries, i as nat) is None,
                    first_bad_value(entries, values.take(k as int)) is None,
                decreases e.values.len() - k,
            {
                proof {
                    assert(values.take(k + 1).drop_last() =~= values.take(k as int));
                    assert(values.take(k + 1).last() == e.values[k as int]@);
                }
                if let crate::code_gen::abi::type_info::ObjectEnumValue::CustomType(name) = &e.values[k] {
                    let found = match types_dict.get(name.as_str()) {
                        Some(TypeInfo::Object(_)) => true,
                        _ => false,
                    };
                    if !found {
                        proof {
                            lemma_bad_value_stays(entries, values, k + 1, values.len() as int);
                            assert(values.take(values.len() as int) =~= values);
                            lemma_bad_payload_stays(entries, (i + 1) as nat, entries.len());
                        }
                        return Err(GenError::NotAnObject(name.clone()));
                    }
                }
                k = k + 1;
            }
            assert(values.take(k as int) =~= values);
        }
        i = i + 1;
    }
    Ok(())
}

impl RustContext {
    #[verifier::type_invariant]
    pub closed spec fn well_formed(&self) -> bool {
        &&& unresolved_reference(self.types_dict@) is None
        &&& bad_payload(self.types_dict@) is None
        &&& table_of(reference_graph(self.types_dict@), self.cycle_groups@)
    }

    /// Makes the context of a run. It finds the cyclic reference groups of
    /// the dictionary, and fails where a reference names no type of the
    /// dictionary or a payload of a tagged union names no object.
    pub fn new(types_dict: TypeDict, options: RustOptions) -> (r: Result<RustContext, GenError>)
        ensures
            result_view(r) == rust_context_of(types_dict@, options@),
    {
        let cycle_groups = match CycleGroups::analyze(&types_dict) {
            Ok(groups) => groups,
            Err(e) => {
                return Err(e);
            },
        };
        match check_payloads(&types_dict) {
            Ok(_) => {},
            Err(e) => {
                return Err(e);
            },
        }
        Ok(RustContext { types_dict, options, cycle_groups })
    }

    pub fn options(&self) -> (r: &RustOptions)
        ensures
            r@ == self@.options,
    {
        &self.options
    }

    /// Names the module file of a package as the place to write to;
    /// `append_only` says whether text is added at its end.
    pub fn write_to_mod_file(&self, package: &str, append_only: bool) -> (r: OutputTarget)
        ensures
            r@ == self@.mod_file(package@, append_only),
    {
        let mut directory = self.options.output_dir.clone();
        directory.append("/");
        directory.append(package);
        directory.append("/");
        let mut path = directory.clone();
        path.append("/mod.rs");
        OutputTarget { directory: Some(directory), path, append: append_only }
    }

    /// Names the file of a type that has a file of its own as the place to
    /// write to.
    pub fn write_to_type_file(&self, type_info: &TypeInfo) -> (r: OutputTarget)
        ensures
            r@ == self@.type_file(type_info@),
    {
        let mut path = self.options.output_dir.clone();
        path.append("/");
        path.append(type_info.package());
        path.append("/");
        let file_name = self.options.type_to_file_name(type_info.name());
        path.append(file_name.as_str());
        path.append(".rs");
        OutputTarget { directory: None, path, append: false }
    }

    /// The path under which Rust code names a type.
    pub fn get_fqn_for_type(&self, type_info: &TypeInfo) -> (r: String)
        ensures
            r@ == type_path(type_info@),
    {
        let mut path = String::from_str("crate::");
        let package = type_info.package();
        let ghost start = path@;
        assert(package@.take(0) =~= Seq::<char>::empty());
        assert(start + Seq::<char>::empty() =~= start);
        for c in chars: package.chars()
            invariant
                chars.seq() == package@,
                path@ == start + package_path(package@.take(chars.index() as int)),
        {
            let ghost i = chars.index() as int;
            let ghost before = package_path(package@.take(i));
            proof {
                assert(package@.take(i + 1).drop_last() =~= package@.take(i));
                assert(package@.take(i + 1).last() == c);
            }
            if c == '.' {
                path.append("::");
                assert(path@ =~= start + (before + "::"@));
            } else {
                push_char(&mut path, c);
                assert(path@ =~= start + before.push(c));
            }
        }
        assert(package@.take(package@.len() as int) =~= package@);
        path.append("::");
        path.append(type_info.name());
        path
    }

    /// How Rust code names the type of a field, item, key or value. It
    /// fails where the dictionary lacks the type.
    pub fn get_fully_qualified_type_name(&self, name: &TypeName) -> (r: Result<String, GenError>)
        ensures
            result_view(r) == self@.qualified_name(name@),
    {
        match name {
            TypeName::Simple(t) => Ok(self.options.get_simple_type(t)),
            TypeName::CustomType(n) => match self.types_dict.get(n.as_str()) {
                Some(type_info) => Ok(self.get_fqn_for_type(type_info)),
                None => Err(GenError::UnknownType(n.clone())),
            },
        }
    }

    /// Whether the type `b`, referred to from within the type `a`, lies on
    /// a cycle of references with it, so that a field of `a` that holds a
    /// `b` needs an indirection. It is false for a name that the dictionary
    /// lacks.
    pub fn is_cyclic_ref(&self, a: &str, b: &str) -> (r: bool)
        ensures
            r == self@.is_cyclic_ref(a@, b@),
    {
        proof {
            use_type_invariant(self);
            lemma_position_of(self.types_dict@, a@);
            lemma_position_of(self.types_dict@, b@);
        }
        match (self.types_dict.index_of(a), self.types_dict.index_of(b)) {
            (Some(i), Some(j)) => self.cycle_groups.same_group(i, j),
            _ => false,
        }
    }

    /// The attributes that stand above every type written.
    pub fn type_descriptions(&self) -> (r: String)
        ensures
            r@ == "#[derive(Debug, Clone, Serialize, Deserialize)]"@,
    {
        String::from_str("#[derive(Debug, Clone, Serialize, Deserialize)]")
    }
}

impl CodeGenContext for RustContext {
    open spec fn types(context: RustContextView) -> Seq<TypeInfoView> {
        context.types
    }

    open spec fn target(context: RustContextView, type_info: TypeInfoView) -> Result<
        OutputTargetView,
        GenErrorView,
    > {
        Ok(context.target(type_info))
    }

    fn type_dict(&self) -> (r: &TypeDict) {
        &self.types_dict
    }

    fn get_writer_for_type(&self, type_info: &TypeInfo) -> (r: Result<OutputTarget, GenError>) {
        match self.options.single_file {
            true => Ok(self.write_to_mod_file(type_info.package(), true)),
            _ => Ok(self.write_to_type_file(type_info)),
        }
    }
}

/// Where no value is bad, every payload names an object.
proof fn lemma_values_good(entries: Seq<TypeInfoView>, values: Seq<ObjectEnumValueView>, v: int)
    requires
        first_bad_value(entries, values) is None,
        0 <= v < values.len(),
        values[v] is CustomType,
    ensures
        entry_named(entries, values[v]->CustomType_0) is Some,
        entry_named(entries, values[v]->CustomType_0)->0 is Object,
    decreases values.len(),
{
    if v < values.len() - 1 {
        lemma_values_good(entries, values.drop_last(), v);
    }
}

/// Where no payload is bad among the first so many types, every payload
/// of a tagged union among them names an object.
proof fn lemma_payloads_good(entries: Seq<TypeInfoView>, n: nat, i: int, v: int)
    requires
        n <= entries.len(),
        first_bad_payload(entries, n) is None,
        0 <= i < n,
        entries[i] is ObjectEnum,
        0 <= v < entries[i]->ObjectEnum_0.values.len(),
        entries[i]->ObjectEnum_0.values[v] is CustomType,
    ensures
        entry_named(entries, entries[i]->ObjectEnum_0.values[v]->CustomType_0) is Some,
        entry_named(entries, entries[i]->ObjectEnum_0.values[v]->CustomType_0)->0 is Object,
    decreases n,
{
    if i < n - 1 {
        lemma_payloads_good(entries, (n - 1) as nat, i, v);
    } else {
        lemma_values_good(entries, entries[i]->ObjectEnum_0.values, v);
    }
}

/// Reference soundness: a dictionary in which some type refers to a name
/// that no type of the dictionary has gives no context, so that nothing is
/// written.
pub proof fn lemma_missing_reference_fails(types: Seq<TypeInfoView>, options: RustOptionsView, i: int, k: int)
    requires
        0 <= i < types.len(),
        0 <= k < types[i].referenced_types().len(),
        !has_name(types, types[i].referenced_types()[k]),
    ensures
        rust_context_of(types, options) is Err,
        rust_context_of(types, options)->Err_0 is UnknownType,
{
    if unresolved_reference(types) is None {
        lemma_all_resolved(types, types.len(), i, k);
    }
}

/// A dictionary in which a payload of a tagged union names a type that is
/// no object gives no context.
pub proof fn lemma_payload_not_object_fails(types: Seq<TypeInfoView>, options: RustOptionsView, i: int, v: int)
    requires
        0 <= i < types.len(),
        types[i] is ObjectEnum,
        0 <= v < types[i]->ObjectEnum_0.values.len(),
        types[i]->ObjectEnum_0.values[v] is CustomType,
        !(entry_named(types, types[i]->ObjectEnum_0.values[v]->CustomType_0) matches Some(t) && t is Object),
    ensures
        rust_context_of(types, options) is Err,
{
    if bad_payload(types) is None {
        lemma_payloads_good(types, types.len(), i, v);
    }
}

} // verus!
