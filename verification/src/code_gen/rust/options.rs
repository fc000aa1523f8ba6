//! The configuration of the Rust backend.

use crate::code_gen::utils::{snake_case, to_snake_case};
use crate::definitions::SimpleType;
use vstd::prelude::*;

verus! {

/// Where the Rust backend writes, and how it lays its files out.
#[derive(Debug)]
pub struct RustOptions {
    pub output_dir: String,
    /// Whether the types of a package all go into the module file of the
    /// package, and not each into a file of its own.
    pub single_file: bool,
}

pub struct RustOptionsView {
    pub output_dir: Seq<char>,
    pub single_file: bool,
}

impl View for RustOptions {
    type V = RustOptionsView;

    open spec fn view(&self) -> RustOptionsView {
        RustOptionsView { output_dir: self.output_dir@, single_file: self.single_file }
    }
}

impl Clone for RustOptions {
    fn clone(&self) -> (r: Self)
        ensures
            r == *self,
    {
        RustOptions { output_dir: self.output_dir.clone(), single_file: self.single_file }
    }
}

/// How Rust spells a primitive.
pub open spec fn rust_simple_type(t: SimpleType) -> Seq<char> {
    match t {
        SimpleType::String => "String"@,
        SimpleType::Bool => "bool"@,
        SimpleType::DateTime => "DateTime"@,
        SimpleType::UInt32 => "u32"@,
        SimpleType::UInt64 => "u64"@,
        SimpleType::Int32 => "i32"@,
        SimpleType::Int64 => "i64"@,
        SimpleType::Float32 => "f32"@,
        SimpleType::Float64 => "f64"@,
    }
}

impl RustOptions {
    /// The options for an output directory, with all the types of a package
    /// in one file.
    pub fn new(output_dir: String) -> (r: Self)
        ensures
            r.output_dir == output_dir,
            r.single_file,
    {
        Self { output_dir, single_file: true }
    }

    pub fn with_single_file(&mut self, single_file: bool) -> (r: &mut RustOptions)
        ensures
            r.single_file == single_file,
            r.output_dir == old(self).output_dir,
            *final(self) == *final(r),
    {
        self.single_file = single_file;
        self
    }

    /// The name of the file and module of a type.
    pub fn type_to_file_name(&self, name: &str) -> (r: String)
        ensures
            r@ == snake_case(name@),
    {
        to_snake_case(name)
    }

    pub fn get_simple_type(&self, t: &SimpleType) -> (r: String)
        ensures
            r@ == rust_simple_type(*t),
    {
        match t {
            SimpleType::String => String::from_str("String"),
            SimpleType::Bool => String::from_str("bool"),
            SimpleType::DateTime => String::from_str("DateTime"),
            SimpleType::UInt32 => String::from_str("u32"),
            SimpleType::UInt64 => String::from_str("u64"),
            SimpleType::Int32 => String::from_str("i32"),
            SimpleType::Int64 => String::from_str("i64"),
            SimpleType::Float32 => String::from_str("f32"),
            SimpleType::Float64 => String::from_str("f64"),
        }
    }
}

} // verus!
