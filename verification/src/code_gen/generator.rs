//! The driver of a generation run.

use crate::code_gen::abi::output::{emission_views, Emission, EmissionView};
use crate::code_gen::abi::type_info::{TypeInfo, TypeInfoView};
use crate::code_gen::abi::{
    result_view, type_views, CodeGenContext, CodeGenProvider, EnumWriter, ListWriter, MapWriter,
    ObjectEnumWriter, ObjectWriter, PackageWriter, PreProcessor,
};
use crate::code_gen::error::{GenError, GenErrorView};
use crate::code_gen::utils::{build_type_dict, definition_views, type_dict_of};
use crate::definitions::{Definition, DefinitionView};
use vstd::prelude::*;

verus! {

/// Runs a backend over definitions.
pub struct CodeGenerator<C: CodeGenContext, P: CodeGenProvider<C>> {
    config: P,
    context: core::marker::PhantomData<C>,
}

/// The packages of the types, each once, in the order in which they first
/// occur.
pub open spec fn package_names(types: Seq<TypeInfoView>) -> Seq<Seq<char>>
    decreases types.len(),
{
    if types.len() == 0 {
        Seq::empty()
    } else {
        let rest = package_names(types.drop_last());
        if rest.contains(types.last().package()) {
            rest
        } else {
            rest.push(types.last().package())
        }
    }
}

/// The types of a package, in their order.
pub open spec fn members(types: Seq<TypeInfoView>, package: Seq<char>) -> Seq<TypeInfoView>
    decreases types.len(),
{
    if types.len() == 0 {
        Seq::empty()
    } else {
        let rest = members(types.drop_last(), package);
        if types.last().package() == package {
            rest.push(types.last())
        } else {
            rest
        }
    }
}

/// What the writer of the kind of a type gives for it.
pub open spec fn type_text<C: CodeGenContext, P: CodeGenProvider<C>>(
    provider: P,
    type_info: TypeInfoView,
    context: C::V,
) -> Result<Seq<char>, GenErrorView> {
    match type_info {
        TypeInfoView::Object(o) => provider.object_writer().object_text(o, context),
        TypeInfoView::Enum(e) => provider.enum_writer().enum_text(e, context),
        TypeInfoView::ObjectEnum(e) => provider.object_enum_writer().object_enum_text(e, context),
        TypeInfoView::List(l) => provider.list_writer().list_text(l, context),
        TypeInfoView::Mapping(m) => provider.map_writer().map_text(m, context),
    }
}

/// What is emitted for a type: the text of the writer of its kind, for the
/// place that the context names. The place is asked for first.
pub open spec fn type_emission<C: CodeGenContext, P: CodeGenProvider<C>>(
    provider: P,
    type_info: TypeInfoView,
    context: C::V,
) -> Result<EmissionView, GenErrorView> {
    match C::target(context, type_info) {
        Err(e) => Err(e),
        Ok(target) => match type_text(provider, type_info, context) {
            Err(e) => Err(e),
            Ok(text) => Ok(EmissionView { target, text }),
        },
    }
}

/// What is emitted for the types of a package, in their order: one
/// emission for each type, but none for an object that a tagged union
/// carries as a payload. The first failure stops it.
pub open spec fn types_emissions<C: CodeGenContext, P: CodeGenProvider<C>>(
    provider: P,
    types: Seq<TypeInfoView>,
    context: C::V,
) -> Result<Seq<EmissionView>, GenErrorView>
    decreases types.len(),
{
    if types.len() == 0 {
        Ok(Seq::empty())
    } else {
        match types_emissions(provider, types.drop_last(), context) {
            Err(e) => Err(e),
            Ok(rest) => if types.last().is_object_enum_value() {
                Ok(rest)
            } else {
                match type_emission(provider, types.last(), context) {
                    Err(e) => Err(e),
                    Ok(emission) => Ok(rest.push(emission)),
                }
            },
        }
    }
}

/// What the package writer gives for a package, where the backend has
/// one.
pub open spec fn package_head<C: CodeGenContext, P: CodeGenProvider<C>>(
    provider: P,
    package: Seq<char>,
    types: Seq<TypeInfoView>,
    context: C::V,
) -> Result<Seq<EmissionView>, GenErrorView> {
    match provider.package_writer() {
        Some(w) => match w.package_output(package, types, context) {
            Err(e) => Err(e),
            Ok(emission) => Ok(seq![emission]),
        },
        None => Ok(Seq::empty()),
    }
}

/// What is emitted for a package: what the package writer gives, where
/// the backend has one, and then the emissions of the types of the
/// package.
pub open spec fn package_emissions<C: CodeGenContext, P: CodeGenProvider<C>>(
    provider: P,
    package: Seq<char>,
    types: Seq<TypeInfoView>,
    context: C::V,
) -> Result<Seq<EmissionView>, GenErrorView> {
    match package_head(provider, package, types, context) {
        Err(e) => Err(e),
        Ok(head) => match types_emissions(provider, types, context) {
            Err(e) => Err(e),
            Ok(emissions) => Ok(head + emissions),
        },
    }
}

/// What is emitted for the packages, one after the other. The first failure
/// stops it.
pub open spec fn packages_emissions<C: CodeGenContext, P: CodeGenProvider<C>>(
    provider: P,
    packages: Seq<Seq<char>>,
    context: C::V,
) -> Result<Seq<EmissionView>, GenErrorView>
    decreases packages.len(),
{
    if packages.len() == 0 {
        Ok(Seq::empty())
    } else {
        match packages_emissions(provider, packages.drop_last(), context) {
            Err(e) => Err(e),
            Ok(rest) => match package_emissions(
                provider,
                packages.last(),
                members(C::types(context), packages.last()),
                context,
            ) {
                Err(e) => Err(e),
                Ok(emissions) => Ok(rest + emissions),
            },
        }
    }
}

/// What a context emits: the emissions of its packages, in the order in
/// which the packages first occur in the dictionary.
pub open spec fn emitted<C: CodeGenContext, P: CodeGenProvider<C>>(provider: P, context: C::V) -> Result<
    Seq<EmissionView>,
    GenErrorView,
> {
    packages_emissions(provider, package_names(C::types(context)), context)
}

/// What a run over the definitions gives: the dictionary is built, the
/// pre-processor makes the context of it, and the context emits. The first
/// failure stops the run, and nothing is emitted then.
pub open spec fn generated<C: CodeGenContext, P: CodeGenProvider<C>>(
    provider: P,
    definitions: Seq<DefinitionView>,
) -> Result<Seq<EmissionView>, GenErrorView> {
    match type_dict_of(definitions, provider.pre_processor()) {
        Err(e) => Err(e),
        Ok(types) => match provider.pre_processor().context_of(types) {
            Err(e) => Err(e),
            Ok(context) => emitted(provider, context),
        },
    }
}

/// The emissions of a run, seen through their views.
pub open spec fn emissions_view(r: Result<Vec<Emission>, GenError>) -> Result<Seq<EmissionView>, GenErrorView> {
    match r {
        Ok(v) => Ok(emission_views(v@)),
        Err(e) => Err(e@),
    }
}

/// Once a type has failed, the types of its package fail with it.
proof fn lemma_types_failed<C: CodeGenContext, P: CodeGenProvider<C>>(
    provider: P,
    types: Seq<TypeInfoView>,
    context: C::V,
    j: int,
    m: int,
)
    requires
        0 <= j <= m <= types.len(),
        types_emissions(provider, types.take(j), context) is Err,
    ensures
        types_emissions(provider, types.take(m), context) == types_emissions(provider, types.take(j), context),
    decreases m - j,
{
    if j < m {
        lemma_types_failed(provider, types, context, j, m - 1);
        assert(types.take(m).drop_last() =~= types.take(m - 1));
    }
}

/// Once a package has failed, the packages fail with it.
proof fn lemma_packages_failed<C: CodeGenContext, P: CodeGenProvider<C>>(
    provider: P,
    packages: Seq<Seq<char>>,
    context: C::V,
    j: int,
    m: int,
)
    requires
        0 <= j <= m <= packages.len(),
        packages_emissions(provider, packages.take(j), context) is Err,
    ensures
        packages_emissions(provider, packages.take(m), context) == packages_emissions(
            provider,
            packages.take(j),
            context,
        ),
    decreases m - j,
{
    if j < m {
        lemma_packages_failed(provider, packages, context, j, m - 1);
        assert(packages.take(m).drop_last() =~= packages.take(m - 1));
    }
}

/// The packages of the dictionary, each once, in the order in which they
/// first occur.
fn collect_packages(types: &crate::code_gen::abi::type_dict::TypeDict) -> (r: Vec<String>)
    ensures
        crate::definitions::texts(r@) == package_names(types@),
{
    let ghost views = types@;
    let n = types.len();
    let mut packages: Vec<String> = Vec::new();
    let mut i: usize = 0;
    assert(views.take(0) =~= Seq::<TypeInfoView>::empty());
    assert(crate::definitions::texts(packages@) =~= Seq::<Seq<char>>::empty());
    while i < n
        invariant
            i <= n,
            n == views.len(),
            views == types@,
            crate::definitions::texts(packages@) == package_names(views.take(i as int)),
        decreases n - i,
    {
        let package = types.entry(i).package().to_owned();
        proof {
            assert(views.take(i + 1).drop_last() =~= views.take(i as int));
            assert(views.take(i + 1).last() == views[i as int]);
        }
        if !crate::code_gen::utils::contains_string(&packages, &package) {
            let ghost before = crate::definitions::texts(packages@);
            packages.push(package);
            assert(crate::definitions::texts(packages@) =~= before.push(views[i as int].package()));
        }
        i = i + 1;
    }
    assert(views.take(i as int) =~= views);
    packages
}

/// The types of a package, in the order of the dictionary.
fn collect_members<'a>(types: &'a crate::code_gen::abi::type_dict::TypeDict, package: &String) -> (r: Vec<
    &'a TypeInfo,
>)
    ensures
        type_views(r@) == members(types@, package@),
{
    let ghost views = types@;
    let n = types.len();
    let mut found: Vec<&TypeInfo> = Vec::new();
    let mut i: usize = 0;
    assert(views.take(0) =~= Seq::<TypeInfoView>::empty());
    assert(type_views(found@) =~= Seq::<TypeInfoView>::empty());
    while i < n
        invariant
            i <= n,
            n == views.len(),
            views == types@,
            type_views(found@) == members(views.take(i as int), package@),
        decreases n - i,
    {
        let type_info = types.entry(i);
        proof {
            assert(views.take(i + 1).drop_last() =~= views.take(i as int));
            assert(views.take(i + 1).last() == views[i as int]);
        }
        let p = type_info.package().to_owned();
        if p == *package {
            let ghost before = type_views(found@);
            found.push(type_info);
            assert(type_views(found@) =~= before.push(views[i as int]));
        }
        i = i + 1;
    }
    assert(views.take(i as int) =~= views);
    found
}

impl<C: CodeGenContext, P: CodeGenProvider<C>> CodeGenerator<C, P> {
    /// The backend that the generator runs.
    pub closed spec fn provider(&self) -> P {
        self.config
    }

    pub fn new(config: P) -> (r: Self)
        ensures
            r.provider() == config,
    {
        Self { config, context: core::marker::PhantomData }
    }

    /// Runs the backend over the definitions: builds the dictionary, has
    /// the pre-processor make the context, groups the types by package,
    /// and for each package runs the package writer, where there is one,
    /// and then the writer of its kind for each type that is no payload of
    /// a tagged union. It gives what is to be written, in that order, and
    /// on the first failure the error alone.
    pub fn generate(&self, definitions: &Vec<Definition>) -> (r: Result<Vec<Emission>, GenError>)
        ensures
            emissions_view(r) == generated(self.provider(), definition_views(definitions@)),
    {
        let pre_processor = self.config.get_pre_processor();
        let type_dict = match build_type_dict(definitions, &pre_processor) {
            Ok(type_dict) => type_dict,
            Err(e) => {
                return Err(e);
            },
        };
        let context = match pre_processor.process(type_dict) {
            Ok(context) => context,
            Err(e) => {
                return Err(e);
            },
        };
        self.emit(&*context)
    }

    /// Emits what a context holds: for each package what the package
    /// writer gives, where there is one, and then one emission for each
    /// type of the package that is no payload of a tagged union.
    pub fn emit(&self, context: &C) -> (r: Result<Vec<Emission>, GenError>)
        ensures
            emissions_view(r) == emitted(self.provider(), context@),
    {
        let types = context.type_dict();
        let packages = collect_packages(types);
        let ghost names = package_names(types@);
        let mut out: Vec<Emission> = Vec::new();
        let mut i: usize = 0;
        assert(names.take(0) =~= Seq::<Seq<char>>::empty());
        assert(emission_views(out@) =~= Seq::<EmissionView>::empty());
        while i < packages.len()
            invariant
                i <= packages.len(),
                types@ == C::types(context@),
                names == package_names(types@),
                names == crate::definitions::texts(packages@),
                packages_emissions(self.provider(), names.take(i as int), context@) == Ok::<
                    Seq<EmissionView>,
                    GenErrorView,
                >(emission_views(out@)),
            decreases packages.len() - i,
        {
            let package = &packages[i];
            let member_types = collect_members(types, package);
            let ghost before = emission_views(out@);
            proof {
                assert(names.take(i + 1).drop_last() =~= names.take(i as int));
                assert(names.take(i + 1).last() == package@);
                assert(names.take(names.len() as int) =~= names);
            }
            match self.gen_code_for_package(package.as_str(), &member_types, context) {
                Ok(mut emissions) => {
                    let ghost added = emission_views(emissions@);
                    out.append(&mut emissions);
                    assert(emission_views(out@) =~= before + added);
                },
                Err(e) => {
                    proof {
                        lemma_packages_failed(self.provider(), names, context@, i + 1, names.len() as int);
                    }
                    return Err(e);
                },
            }
            i = i + 1;
        }
        assert(names.take(i as int) =~= names);
        Ok(out)
    }

    /// Emits a package.
    fn gen_code_for_package(&self, package: &str, types: &Vec<&TypeInfo>, context: &C) -> (r: Result<
        Vec<Emission>,
        GenError,
    >)
        ensures
            emissions_view(r) == package_emissions(self.provider(), package@, type_views(types@), context@),
    {
        let ghost views = type_views(types@);
        let mut out: Vec<Emission> = Vec::new();
        if let Some(package_writer) = self.config.get_package_writer() {
            match package_writer.write_package(package, types, context) {
                Ok(emission) => {
                    out.push(emission);
                },
                Err(e) => {
                    return Err(e);
                },
            }
        }
        let ghost head = emission_views(out@);
        let ghost h = out.len() as int;
        proof {
            assert(views.take(0) =~= Seq::<TypeInfoView>::empty());
            assert(emission_views(out@).subrange(h, h) =~= Seq::<EmissionView>::empty());
            match self.provider().package_writer() {
                Some(w) => {
                    assert(head =~= seq![out@[0]@]);
                },
                None => {
                    assert(head =~= Seq::<EmissionView>::empty());
                },
            }
        }
        let mut i: usize = 0;
        while i < types.len()
            invariant
                i <= types.len(),
                views == type_views(types@),
                views.len() == types.len(),
                h <= out.len(),
                h == head.len(),
                package_head(self.provider(), package@, views, context@) == Ok::<Seq<EmissionView>, GenErrorView>(
                    head,
                ),
                emission_views(out@).subrange(0, h) == head,
                types_emissions(self.provider(), views.take(i as int), context@) == Ok::<
                    Seq<EmissionView>,
                    GenErrorView,
                >(emission_views(out@).subrange(h, out.len() as int)),
            decreases types.len() - i,
        {
            let type_info = types[i];
            proof {
                assert(views.take(i + 1).drop_last() =~= views.take(i as int));
                assert(views.take(i + 1).last() == type_info@);
                assert(views.take(views.len() as int) =~= views);
            }
            if !type_info.is_object_enum_value() {
                match self.gen_code_for(type_info, context) {
                    Ok(emission) => {
                        let ghost before = emission_views(out@);
                        out.push(emission);
                        proof {
                            assert(emission_views(out@) =~= before.push(emission@));
                            assert(emission_views(out@).subrange(0, h) =~= before.subrange(0, h));
                            assert(emission_views(out@).subrange(h, out.len() as int) =~= before.subrange(
                                h,
                                before.len() as int,
                            ).push(emission@));
                        }
                    },
                    Err(e) => {
                        proof {
                            lemma_types_failed(self.provider(), views, context@, i + 1, views.len() as int);
                        }
                        return Err(e);
                    },
                }
            }
            i = i + 1;
        }
        proof {
            assert(views.take(i as int) =~= views);
            assert(emission_views(out@) =~= head + emission_views(out@).subrange(h, out.len() as int));
        }
        Ok(out)
    }

    /// Emits a type: asks the context where its text goes, and the writer
    /// of its kind for the text.
    fn gen_code_for(&self, type_info: &TypeInfo, context: &C) -> (r: Result<Emission, GenError>)
        ensures
            result_view(r) == type_emission(self.provider(), type_info@, context@),
    {
        let target = match context.get_writer_for_type(type_info) {
            Ok(target) => target,
            Err(e) => {
                return Err(e);
            },
        };
        let written = match type_info {
            TypeInfo::Object(object_type_info) => {
                let object_writer = self.config.get_object_writer();
                object_writer.write_object(object_type_info, context)
            },
            TypeInfo::Enum(enum_type_info) => {
                let enum_writer = self.config.get_enum_writer();
                enum_writer.write_enum(enum_type_info, context)
            },
            TypeInfo::ObjectEnum(object_enum_type_info) => {
                let object_enum_writer = self.config.get_object_enum_writer();
                object_enum_writer.write_object_enum(object_enum_type_info, context)
            },
            TypeInfo::List(list_type_info) => {
                let list_writer = self.config.get_list_writer();
                list_writer.write_list(list_type_info, context)
            },
            TypeInfo::Mapping(map_type_info) => {
                let map_writer = self.config.get_map_writer();
                map_writer.write_map(map_type_info, context)
            },
        };
        match written {
            Ok(text) => Ok(Emission { target, text }),
            Err(e) => Err(e),
        }
    }
}

/// The exclusion of payloads: each emission for the types of a package is
/// that of one of them that is no payload of a tagged union, so that no
/// object that a tagged union carries is written as a type of its own.
pub proof fn lemma_payloads_not_emitted<C: CodeGenContext, P: CodeGenProvider<C>>(
    provider: P,
    types: Seq<TypeInfoView>,
    context: C::V,
    x: int,
) -> (i: int)
    requires
        types_emissions(provider, types, context) is Ok,
        0 <= x < types_emissions(provider, types, context)->Ok_0.len(),
    ensures
        0 <= i < types.len(),
        !types[i].is_object_enum_value(),
        type_emission(provider, types[i], context) == Ok::<EmissionView, GenErrorView>(
            types_emissions(provider, types, context)->Ok_0[x],
        ),
    decreases types.len(),
{
    let rest = types_emissions(provider, types.drop_last(), context)->Ok_0;
    if x < rest.len() {
        lemma_payloads_not_emitted(provider, types.drop_last(), context, x)
    } else {
        types.len() - 1
    }
}

/// One emission is made for each type of a package that is no payload of
/// a tagged union, and no other.
pub open spec fn emitted_count(types: Seq<TypeInfoView>) -> nat
    decreases types.len(),
{
    if types.len() == 0 {
        0
    } else if types.last().is_object_enum_value() {
        emitted_count(types.drop_last())
    } else {
        emitted_count(types.drop_last()) + 1
    }
}

/// As many emissions are made for the types of a package as there are
/// types in it that are no payload of a tagged union.
pub proof fn lemma_emitted_count<C: CodeGenContext, P: CodeGenProvider<C>>(
    provider: P,
    types: Seq<TypeInfoView>,
    context: C::V,
)
    requires
        types_emissions(provider, types, context) is Ok,
    ensures
        types_emissions(provider, types, context)->Ok_0.len() == emitted_count(types),
    decreases types.len(),
{
    if types.len() > 0 {
        lemma_emitted_count(provider, types.drop_last(), context);
    }
}

/// The types of a package are types of the dictionary, of that package.
pub proof fn lemma_members(types: Seq<TypeInfoView>, package: Seq<char>, x: int) -> (i: int)
    requires
        0 <= x < members(types, package).len(),
    ensures
        0 <= i < types.len(),
        types[i] == members(types, package)[x],
        types[i].package() == package,
    decreases types.len(),
{
    let rest = members(types.drop_last(), package);
    if x < rest.len() {
        lemma_members(types.drop_last(), package, x)
    } else {
        types.len() - 1
    }
}

} // verus!
