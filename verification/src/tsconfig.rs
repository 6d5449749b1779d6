//! The settings of the TypeScript compiler as a project keeps them: the
//! references between projects, and the named choices of the compiler.

use vstd::prelude::*;
use crate::text::{
    debug_quoted, debug_text, lowercase, same_str, same_text, to_chars, to_lower, to_upper,
    uppercase,
};

verus! {

/// A reference from one project to another.
#[derive(Debug, PartialEq, Eq)]
pub struct Reference {
    pub path: String,
    pub prepend: Option<bool>,
}

/// The mathematical value of a [`Reference`].
pub struct ReferenceView {
    pub path: Seq<char>,
    pub prepend: Option<bool>,
}

impl View for Reference {
    type V = ReferenceView;

    open spec fn view(&self) -> ReferenceView {
        ReferenceView { path: self.path@, prepend: self.prepend }
    }
}

impl DeepView for Reference {
    type V = ReferenceView;

    open spec fn deep_view(&self) -> ReferenceView {
        self@
    }
}

impl Clone for Reference {
    fn clone(&self) -> (out: Self)
        ensures
            out@ == self@,
    {
        Reference { path: self.path.clone(), prepend: self.prepend }
    }
}

/// How type declarations are acquired for a project.
#[derive(Debug, PartialEq, Eq)]
pub struct TypeAcquisition {
    pub enable: bool,
    /// The patterns of what is taken in.
    pub included: Option<Vec<String>>,
    pub exclude: Option<Vec<String>>,
    pub disable_filename_based_type_acquisition: Option<bool>,
}

impl Default for TypeAcquisition {
    fn default() -> (out: Self)
        ensures
            !out.enable,
            out.included is None,
            out.exclude is None,
            out.disable_filename_based_type_acquisition is None,
    {
        TypeAcquisition {
            enable: false,
            included: None,
            exclude: None,
            disable_filename_based_type_acquisition: None,
        }
    }
}

/// How the compiler watches files.
#[derive(Debug, PartialEq, Eq)]
pub struct WatchOptions {
    pub exclude_directories: Option<Vec<String>>,
    pub exclude_files: Option<Vec<String>>,
    pub fallback_polling: Option<String>,
    pub synchronous_watch_directory: Option<bool>,
    pub watch_directory: Option<String>,
    pub watch_file: Option<String>,
}

impl Default for WatchOptions {
    fn default() -> (out: Self)
        ensures
            out.exclude_directories is None,
            out.exclude_files is None,
            out.fallback_polling is None,
            out.synchronous_watch_directory is None,
            out.watch_directory is None,
            out.watch_file is None,
    {
        WatchOptions {
            exclude_directories: None,
            exclude_files: None,
            fallback_polling: None,
            synchronous_watch_directory: None,
            watch_directory: None,
            watch_file: None,
        }
    }
}


/// The module system that the compiler emits.
#[derive(Debug, PartialEq, Eq)]
pub enum Module {
    Amd,
    CommonJs,
    Es6,
    Es2015,
    Es2020,
    Es2022,
    EsNext,
    Node12,
    NodeNext,
    /// No module system: the name `none`.
    NoModules,
    System,
    Umd,
    Other(String),
}

/// The mathematical value of a [`Module`].
pub enum ModuleView {
    Amd,
    CommonJs,
    Es6,
    Es2015,
    Es2020,
    Es2022,
    EsNext,
    Node12,
    NodeNext,
    /// No module system: the name `none`.
    NoModules,
    System,
    Umd,
    Other(Seq<char>),
}

impl View for Module {
    type V = ModuleView;

    open spec fn view(&self) -> ModuleView {
        match self {
            Module::Amd => ModuleView::Amd,
            Module::CommonJs => ModuleView::CommonJs,
            Module::Es6 => ModuleView::Es6,
            Module::Es2015 => ModuleView::Es2015,
            Module::Es2020 => ModuleView::Es2020,
            Module::Es2022 => ModuleView::Es2022,
            Module::EsNext => ModuleView::EsNext,
            Module::Node12 => ModuleView::Node12,
            Module::NodeNext => ModuleView::NodeNext,
            Module::NoModules => ModuleView::NoModules,
            Module::System => ModuleView::System,
            Module::Umd => ModuleView::Umd,
            Module::Other(text) => ModuleView::Other(text@),
        }
    }
}

impl DeepView for Module {
    type V = ModuleView;

    open spec fn deep_view(&self) -> ModuleView {
        self@
    }
}

impl Clone for Module {
    fn clone(&self) -> (out: Self)
        ensures
            out@ == self@,
    {
        match self {
            Module::Amd => Module::Amd,
            Module::CommonJs => Module::CommonJs,
            Module::Es6 => Module::Es6,
            Module::Es2015 => Module::Es2015,
            Module::Es2020 => Module::Es2020,
            Module::Es2022 => Module::Es2022,
            Module::EsNext => Module::EsNext,
            Module::Node12 => Module::Node12,
            Module::NodeNext => Module::NodeNext,
            Module::NoModules => Module::NoModules,
            Module::System => Module::System,
            Module::Umd => Module::Umd,
            Module::Other(text) => Module::Other(text.clone()),
        }
    }
}

/// The module system that a name in upper case stands for. `ES2022` stands for the module system of 2020.
pub open spec fn module_of(upper: Seq<char>) -> ModuleView {
    if upper == "AMD"@ {
        ModuleView::Amd
    } else if upper == "COMMONJS"@ {
        ModuleView::CommonJs
    } else if upper == "ES6"@ {
        ModuleView::Es6
    } else if upper == "ES2015"@ {
        ModuleView::Es2015
    } else if upper == "ES2020"@ {
        ModuleView::Es2020
    } else if upper == "ES2022"@ {
        ModuleView::Es2020
    } else if upper == "ESNEXT"@ {
        ModuleView::EsNext
    } else if upper == "NODE12"@ {
        ModuleView::Node12
    } else if upper == "NODENEXT"@ {
        ModuleView::NodeNext
    } else if upper == "NONE"@ {
        ModuleView::NoModules
    } else if upper == "SYSTEM"@ {
        ModuleView::System
    } else if upper == "UMD"@ {
        ModuleView::Umd
    } else {
        ModuleView::Other(upper)
    }
}

impl Module {
    /// The module system that a name in upper case stands for.
    pub fn from_upper(upper: &str) -> (out: Module)
        ensures
            out@ == module_of(upper@),
    {
        if same_str(upper, "AMD") {
            Module::Amd
        } else if same_str(upper, "COMMONJS") {
            Module::CommonJs
        } else if same_str(upper, "ES6") {
            Module::Es6
        } else if same_str(upper, "ES2015") {
            Module::Es2015
        } else if same_str(upper, "ES2020") {
            Module::Es2020
        } else if same_str(upper, "ES2022") {
            Module::Es2020
        } else if same_str(upper, "ESNEXT") {
            Module::EsNext
        } else if same_str(upper, "NODE12") {
            Module::Node12
        } else if same_str(upper, "NODENEXT") {
            Module::NodeNext
        } else if same_str(upper, "NONE") {
            Module::NoModules
        } else if same_str(upper, "SYSTEM") {
            Module::System
        } else if same_str(upper, "UMD") {
            Module::Umd
        } else {
            Module::Other(upper.to_owned())
        }
    }

    /// The module system that a name stands for, whatever its case.
    pub fn from_text(text: &str) -> (out: Module)
        ensures
            out@ == module_of(uppercase(text@)),
    {
        let upper = to_upper(text);
        Module::from_upper(upper.as_str())
    }
}

/// How the compiler resolves the modules that a file imports.
#[derive(Clone, Copy, Debug, PartialEq, Eq, Structural)]
pub enum ModuleResolution {
    Classic,
    Node,
    Node12,
    NodeNext,
}

/// The resolution that a name in upper case stands for: that of Node.js
/// for every name that is none of the others.
pub open spec fn resolution_of(upper: Seq<char>) -> ModuleResolution {
    if upper == "CLASSIC"@ {
        ModuleResolution::Classic
    } else if upper == "NODE12"@ {
        ModuleResolution::Node12
    } else if upper == "NODENEXT"@ {
        ModuleResolution::NodeNext
    } else {
        ModuleResolution::Node
    }
}

impl ModuleResolution {
    /// The resolution that a name in upper case stands for.
    pub fn from_upper(upper: &str) -> (out: ModuleResolution)
        ensures
            out == resolution_of(upper@),
    {
        if same_str(upper, "CLASSIC") {
            ModuleResolution::Classic
        } else if same_str(upper, "NODE12") {
            ModuleResolution::Node12
        } else if same_str(upper, "NODENEXT") {
            ModuleResolution::NodeNext
        } else {
            ModuleResolution::Node
        }
    }

    /// The resolution that a name stands for, whatever its case.
    pub fn from_text(text: &str) -> (out: ModuleResolution)
        ensures
            out == resolution_of(uppercase(text@)),
    {
        let upper = to_upper(text);
        ModuleResolution::from_upper(upper.as_str())
    }
}

/// How the compiler treats JSX.
#[derive(Clone, Copy, Debug, PartialEq, Eq, Structural)]
pub enum Jsx {
    React,
    ReactJsx,
    ReactJsxdev,
    ReactNative,
    Preserve,
}

impl Jsx {
    /// The name of the choice in a settings file.
    pub open spec fn name_text(self) -> Seq<char> {
        match self {
            Jsx::React => "react"@,
            Jsx::ReactJsx => "react-jsx"@,
            Jsx::ReactJsxdev => "react-jsxdev"@,
            Jsx::ReactNative => "react-native"@,
            Jsx::Preserve => "preserve"@,
        }
    }

    /// The choice that a name in a settings file stands for, if any.
    pub fn from_name(name: &str) -> (out: Option<Jsx>)
        ensures
            out matches Some(jsx) ==> jsx.name_text() == name@,
            out is None ==> forall|jsx: Jsx| jsx.name_text() != name@,
    {
        let out = if same_str(name, "react") {
            Some(Jsx::React)
        } else if same_str(name, "react-jsx") {
            Some(Jsx::ReactJsx)
        } else if same_str(name, "react-jsxdev") {
            Some(Jsx::ReactJsxdev)
        } else if same_str(name, "react-native") {
            Some(Jsx::ReactNative)
        } else if same_str(name, "preserve") {
            Some(Jsx::Preserve)
        } else {
            None
        };
        proof {
            if out is None {
                assert forall|jsx: Jsx| jsx.name_text() != name@ by {
                    match jsx {
                        Jsx::React => {},
                        Jsx::ReactJsx => {},
                        Jsx::ReactJsxdev => {},
                        Jsx::ReactNative => {},
                        Jsx::Preserve => {},
                    }
                }
            }
        }
        out
    }

    /// The name of the choice in a settings file.
    pub fn name(&self) -> (out: String)
        ensures
            out@ == self.name_text(),
    {
        match self {
            Jsx::React => "react".to_owned(),
            Jsx::ReactJsx => "react-jsx".to_owned(),
            Jsx::ReactJsxdev => "react-jsxdev".to_owned(),
            Jsx::ReactNative => "react-native".to_owned(),
            Jsx::Preserve => "preserve".to_owned(),
        }
    }
}


/// The version of the language that the compiler emits.
#[derive(Debug, PartialEq, Eq)]
pub enum Target {
    Es3,
    Es5,
    Es6,
    Es7,
    Es2015,
    Es2016,
    Es2017,
    Es2018,
    Es2019,
    Es2020,
    Es2021,
    Es2022,
    EsNext,
    Other(String),
}

/// The mathematical value of a [`Target`].
pub enum TargetView {
    Es3,
    Es5,
    Es6,
    Es7,
    Es2015,
    Es2016,
    Es2017,
    Es2018,
    Es2019,
    Es2020,
    Es2021,
    Es2022,
    EsNext,
    Other(Seq<char>),
}

impl View for Target {
    type V = TargetView;

    open spec fn view(&self) -> TargetView {
        match self {
            Target::Es3 => TargetView::Es3,
            Target::Es5 => TargetView::Es5,
            Target::Es6 => TargetView::Es6,
            Target::Es7 => TargetView::Es7,
            Target::Es2015 => TargetView::Es2015,
            Target::Es2016 => TargetView::Es2016,
            Target::Es2017 => TargetView::Es2017,
            Target::Es2018 => TargetView::Es2018,
            Target::Es2019 => TargetView::Es2019,
            Target::Es2020 => TargetView::Es2020,
            Target::Es2021 => TargetView::Es2021,
            Target::Es2022 => TargetView::Es2022,
            Target::EsNext => TargetView::EsNext,
            Target::Other(text) => TargetView::Other(text@),
        }
    }
}

impl DeepView for Target {
    type V = TargetView;

    open spec fn deep_view(&self) -> TargetView {
        self@
    }
}

impl Clone for Target {
    fn clone(&self) -> (out: Self)
        ensures
            out@ == self@,
    {
        match self {
            Target::Es3 => Target::Es3,
            Target::Es5 => Target::Es5,
            Target::Es6 => Target::Es6,
            Target::Es7 => Target::Es7,
            Target::Es2015 => Target::Es2015,
            Target::Es2016 => Target::Es2016,
            Target::Es2017 => Target::Es2017,
            Target::Es2018 => Target::Es2018,
            Target::Es2019 => Target::Es2019,
            Target::Es2020 => Target::Es2020,
            Target::Es2021 => Target::Es2021,
            Target::Es2022 => Target::Es2022,
            Target::EsNext => Target::EsNext,
            Target::Other(text) => Target::Other(text.clone()),
        }
    }
}

/// The language version that a name in upper case stands for.
pub open spec fn target_of(upper: Seq<char>) -> TargetView {
    if upper == "ES3"@ {
        TargetView::Es3
    } else if upper == "ES5"@ {
        TargetView::Es5
    } else if upper == "ES6"@ {
        TargetView::Es6
    } else if upper == "ES7"@ {
        TargetView::Es7
    } else if upper == "ES2015"@ {
        TargetView::Es2015
    } else if upper == "ES2016"@ {
        TargetView::Es2016
    } else if upper == "ES2017"@ {
        TargetView::Es2017
    } else if upper == "ES2018"@ {
        TargetView::Es2018
    } else if upper == "ES2019"@ {
        TargetView::Es2019
    } else if upper == "ES2020"@ {
        TargetView::Es2020
    } else if upper == "ES2021"@ {
        TargetView::Es2021
    } else if upper == "ES2022"@ {
        TargetView::Es2022
    } else if upper == "ESNEXT"@ {
        TargetView::EsNext
    } else {
        TargetView::Other(upper)
    }
}

impl Target {
    /// The language version that a name in upper case stands for.
    pub fn from_upper(upper: &str) -> (out: Target)
        ensures
            out@ == target_of(upper@),
    {
        if same_str(upper, "ES3") {
            Target::Es3
        } else if same_str(upper, "ES5") {
            Target::Es5
        } else if same_str(upper, "ES6") {
            Target::Es6
        } else if same_str(upper, "ES7") {
            Target::Es7
        } else if same_str(upper, "ES2015") {
            Target::Es2015
        } else if same_str(upper, "ES2016") {
            Target::Es2016
        } else if same_str(upper, "ES2017") {
            Target::Es2017
        } else if same_str(upper, "ES2018") {
            Target::Es2018
        } else if same_str(upper, "ES2019") {
            Target::Es2019
        } else if same_str(upper, "ES2020") {
            Target::Es2020
        } else if same_str(upper, "ES2021") {
            Target::Es2021
        } else if same_str(upper, "ES2022") {
            Target::Es2022
        } else if same_str(upper, "ESNEXT") {
            Target::EsNext
        } else {
            Target::Other(upper.to_owned())
        }
    }

    /// The language version that a name stands for, whatever its case.
    pub fn from_text(text: &str) -> (out: Target)
        ensures
            out@ == target_of(uppercase(text@)),
    {
        let upper = to_upper(text);
        Target::from_upper(upper.as_str())
    }
}

/// A library of declarations that the compiler includes.
#[derive(Debug, PartialEq, Eq)]
pub enum Lib {
    Dom,
    DomIterable,
    Es5,
    Es6,
    Es7,
    Es2015,
    Es2015Core,
    Es2015Collection,
    Es2015Generator,
    Es2015Iterable,
    Es2015Promise,
    Es2015Proxy,
    Es2015Reflect,
    Es2015Symbol,
    Es2015SymbolWellKnown,
    Es2016,
    Es2016ArrayInclude,
    Es2017,
    Es2017Intl,
    Es2017Object,
    Es2017SharedMemory,
    Es2017String,
    Es2017TypedArrays,
    Es2018,
    Es2018Intl,
    Es2018Promise,
    Es2018RegExp,
    Es2019,
    Es2019Array,
    Es2019Object,
    Es2019String,
    Es2019Symbol,
    Es2020,
    Es2020String,
    Es2020SymbolWellknown,
    Es2021,
    Es2021Promise,
    Es2021String,
    Es2021Weakref,
    Es2022,
    EsNext,
    EsNextArray,
    EsNextAsyncIterable,
    EsNextIntl,
    EsNextSymbol,
    ScriptHost,
    WebWorker,
    Other(String),
}

/// The mathematical value of a [`Lib`].
pub enum LibView {
    Dom,
    DomIterable,
    Es5,
    Es6,
    Es7,
    Es2015,
    Es2015Core,
    Es2015Collection,
    Es2015Generator,
    Es2015Iterable,
    Es2015Promise,
    Es2015Proxy,
    Es2015Reflect,
    Es2015Symbol,
    Es2015SymbolWellKnown,
    Es2016,
    Es2016ArrayInclude,
    Es2017,
    Es2017Intl,
    Es2017Object,
    Es2017SharedMemory,
    Es2017String,
    Es2017TypedArrays,
    Es2018,
    Es2018Intl,
    Es2018Promise,
    Es2018RegExp,
    Es2019,
    Es2019Array,
    Es2019Object,
    Es2019String,
    Es2019Symbol,
    Es2020,
    Es2020String,
    Es2020SymbolWellknown,
    Es2021,
    Es2021Promise,
    Es2021String,
    Es2021Weakref,
    Es2022,
    EsNext,
    EsNextArray,
    EsNextAsyncIterable,
    EsNextIntl,
    EsNextSymbol,
    ScriptHost,
    WebWorker,
    Other(Seq<char>),
}

impl View for Lib {
    type V = LibView;

    open spec fn view(&self) -> LibView {
        match self {
            Lib::Dom => LibView::Dom,
            Lib::DomIterable => LibView::DomIterable,
            Lib::Es5 => LibView::Es5,
            Lib::Es6 => LibView::Es6,
            Lib::Es7 => LibView::Es7,
            Lib::Es2015 => LibView::Es2015,
            Lib::Es2015Core => LibView::Es2015Core,
            Lib::Es2015Collection => LibView::Es2015Collection,
            Lib::Es2015Generator => LibView::Es2015Generator,
            Lib::Es2015Iterable => LibView::Es2015Iterable,
            Lib::Es2015Promise => LibView::Es2015Promise,
            Lib::Es2015Proxy => LibView::Es2015Proxy,
            Lib::Es2015Reflect => LibView::Es2015Reflect,
            Lib::Es2015Symbol => LibView::Es2015Symbol,
            Lib::Es2015SymbolWellKnown => LibView::Es2015SymbolWellKnown,
            Lib::Es2016 => LibView::Es2016,
            Lib::Es2016ArrayInclude => LibView::Es2016ArrayInclude,
            Lib::Es2017 => LibView::Es2017,
            Lib::Es2017Intl => LibView::Es2017Intl,
            Lib::Es2017Object => LibView::Es2017Object,
            Lib::Es2017SharedMemory => LibView::Es2017SharedMemory,
            Lib::Es2017String => LibView::Es2017String,
            Lib::Es2017TypedArrays => LibView::Es2017TypedArrays,
            Lib::Es2018 => LibView::Es2018,
            Lib::Es2018Intl => LibView::Es2018Intl,
            Lib::Es2018Promise => LibView::Es2018Promise,
            Lib::Es2018RegExp => LibView::Es2018RegExp,
            Lib::Es2019 => LibView::Es2019,
            Lib::Es2019Array => LibView::Es2019Array,
            Lib::Es2019Object => LibView::Es2019Object,
            Lib::Es2019String => LibView::Es2019String,
            Lib::Es2019Symbol => LibView::Es2019Symbol,
            Lib::Es2020 => LibView::Es2020,
            Lib::Es2020String => LibView::Es2020String,
            Lib::Es2020SymbolWellknown => LibView::Es2020SymbolWellknown,
            Lib::Es2021 => LibView::Es2021,
            Lib::Es2021Promise => LibView::Es2021Promise,
            Lib::Es2021String => LibView::Es2021String,
            Lib::Es2021Weakref => LibView::Es2021Weakref,
            Lib::Es2022 => LibView::Es2022,
            Lib::EsNext => LibView::EsNext,
            Lib::EsNextArray => LibView::EsNextArray,
            Lib::EsNextAsyncIterable => LibView::EsNextAsyncIterable,
            Lib::EsNextIntl => LibView::EsNextIntl,
            Lib::EsNextSymbol => LibView::EsNextSymbol,
            Lib::ScriptHost => LibView::ScriptHost,
            Lib::WebWorker => LibView::WebWorker,
            Lib::Other(text) => LibView::Other(text@),
        }
    }
}

impl DeepView for Lib {
    type V = LibView;

    open spec fn deep_view(&self) -> LibView {
        self@
    }
}

impl Clone for Lib {
    fn clone(&self) -> (out: Self)
        ensures
            out@ == self@,
    {
        match self {
            Lib::Dom => Lib::Dom,
            Lib::DomIterable => Lib::DomIterable,
            Lib::Es5 => Lib::Es5,
            Lib::Es6 => Lib::Es6,
            Lib::Es7 => Lib::Es7,
            Lib::Es2015 => Lib::Es2015,
            Lib::Es2015Core => Lib::Es2015Core,
            Lib::Es2015Collection => Lib::Es2015Collection,
            Lib::Es2015Generator => Lib::Es2015Generator,
            Lib::Es2015Iterable => Lib::Es2015Iterable,
            Lib::Es2015Promise => Lib::Es2015Promise,
            Lib::Es2015Proxy => Lib::Es2015Proxy,
            Lib::Es2015Reflect => Lib::Es2015Reflect,
            Lib::Es2015Symbol => Lib::Es2015Symbol,
            Lib::Es2015SymbolWellKnown => Lib::Es2015SymbolWellKnown,
            Lib::Es2016 => Lib::Es2016,
            Lib::Es2016ArrayInclude => Lib::Es2016ArrayInclude,
            Lib::Es2017 => Lib::Es2017,
            Lib::Es2017Intl => Lib::Es2017Intl,
            Lib::Es2017Object => Lib::Es2017Object,
            Lib::Es2017SharedMemory => Lib::Es2017SharedMemory,
            Lib::Es2017String => Lib::Es2017String,
            Lib::Es2017TypedArrays => Lib::Es2017TypedArrays,
            Lib::Es2018 => Lib::Es2018,
            Lib::Es2018Intl => Lib::Es2018Intl,
            Lib::Es2018Promise => Lib::Es2018Promise,
            Lib::Es2018RegExp => Lib::Es2018RegExp,
            Lib::Es2019 => Lib::Es2019,
            Lib::Es2019Array => Lib::Es2019Array,
            Lib::Es2019Object => Lib::Es2019Object,
            Lib::Es2019String => Lib::Es2019String,
            Lib::Es2019Symbol => Lib::Es2019Symbol,
            Lib::Es2020 => Lib::Es2020,
            Lib::Es2020String => Lib::Es2020String,
            Lib::Es2020SymbolWellknown => Lib::Es2020SymbolWellknown,
            Lib::Es2021 => Lib::Es2021,
            Lib::Es2021Promise => Lib::Es2021Promise,
            Lib::Es2021String => Lib::Es2021String,
            Lib::Es2021Weakref => Lib::Es2021Weakref,
            Lib::Es2022 => Lib::Es2022,
            Lib::EsNext => Lib::EsNext,
            Lib::EsNextArray => Lib::EsNextArray,
            Lib::EsNextAsyncIterable => Lib::EsNextAsyncIterable,
            Lib::EsNextIntl => Lib::EsNextIntl,
            Lib::EsNextSymbol => Lib::EsNextSymbol,
            Lib::ScriptHost => Lib::ScriptHost,
            Lib::WebWorker => Lib::WebWorker,
            Lib::Other(text) => Lib::Other(text.clone()),
        }
    }
}

/// The library that a name in upper case stands for.
pub open spec fn lib_of(upper: Seq<char>) -> LibView {
    if upper == "DOM"@ {
        LibView::Dom
    } else if upper == "DOM.ITERABLE"@ {
        LibView::DomIterable
    } else if upper == "ES5"@ {
        LibView::Es5
    } else if upper == "ES6"@ {
        LibView::Es6
    } else if upper == "ES7"@ {
        LibView::Es7
    } else if upper == "ES2015"@ {
        LibView::Es2015
    } else if upper == "ES2015.CORE"@ {
        LibView::Es2015Core
    } else if upper == "ES2015.COLLECTION"@ {
        LibView::Es2015Collection
    } else if upper == "ES2015.GENERATOR"@ {
        LibView::Es2015Generator
    } else if upper == "ES2015.ITERABLE"@ {
        LibView::Es2015Iterable
    } else if upper == "ES2015.PROMISE"@ {
        LibView::Es2015Promise
    } else if upper == "ES2015.PROXY"@ {
        LibView::Es2015Proxy
    } else if upper == "ES2015.REFLECT"@ {
        LibView::Es2015Reflect
    } else if upper == "ES2015.SYMBOL"@ {
        LibView::Es2015Symbol
    } else if upper == "ES2015.SYMBOL.WELLKNOWN"@ {
        LibView::Es2015SymbolWellKnown
    } else if upper == "ES2016"@ {
        LibView::Es2016
    } else if upper == "ES2016.ARRAY.INCLUDE"@ {
        LibView::Es2016ArrayInclude
    } else if upper == "ES2017"@ {
        LibView::Es2017
    } else if upper == "ES2017.INTL"@ {
        LibView::Es2017Intl
    } else if upper == "ES2017.OBJECT"@ {
        LibView::Es2017Object
    } else if upper == "ES2017.SHAREDMEMORY"@ {
        LibView::Es2017SharedMemory
    } else if upper == "ES2017.STRING"@ {
        LibView::Es2017String
    } else if upper == "ES2017.TYPEDARRAYS"@ {
        LibView::Es2017TypedArrays
    } else if upper == "ES2018"@ {
        LibView::Es2018
    } else if upper == "ES2018.INTL"@ {
        LibView::Es2018Intl
    } else if upper == "ES2018.PROMISE"@ {
        LibView::Es2018Promise
    } else if upper == "ES2018.REGEXP"@ {
        LibView::Es2018RegExp
    } else if upper == "ES2019"@ {
        LibView::Es2019
    } else if upper == "ES2019.ARRAY"@ {
        LibView::Es2019Array
    } else if upper == "ES2019.OBJECT"@ {
        LibView::Es2019Object
    } else if upper == "ES2019.STRING"@ {
        LibView::Es2019String
    } else if upper == "ES2019.SYMBOL"@ {
        LibView::Es2019Symbol
    } else if upper == "ES2020"@ {
        LibView::Es2020
    } else if upper == "ES2020.STRING"@ {
        LibView::Es2020String
    } else if upper == "ES2020.SYMBOL.WELLKNOWN"@ {
        LibView::Es2020SymbolWellknown
    } else if upper == "ES2021"@ {
        LibView::Es2021
    } else if upper == "ES2021.PROMISE"@ {
        LibView::Es2021Promise
    } else if upper == "ES2021.STRING"@ {
        LibView::Es2021String
    } else if upper == "ES2021.WEAKREF"@ {
        LibView::Es2021Weakref
    } else if upper == "ES2022"@ {
        LibView::Es2022
    } else if upper == "ESNEXT"@ {
        LibView::EsNext
    } else if upper == "ESNEXT.ARRAY"@ {
        LibView::EsNextArray
    } else if upper == "ESNEXT.ASYNCITERABLE"@ {
        LibView::EsNextAsyncIterable
    } else if upper == "ESNEXT.INTL"@ {
        LibView::EsNextIntl
    } else if upper == "ESNEXT.SYMBOL"@ {
        LibView::EsNextSymbol
    } else if upper == "SCRIPTHOST"@ {
        LibView::ScriptHost
    } else if upper == "WEBWORKER"@ {
        LibView::WebWorker
    } else {
        LibView::Other(upper)
    }
}

impl LibView {
    /// The library as it is written before its case is lowered: its
    /// dotted name where it has one, else the name of the variant, with
    /// the text of an unknown library as a quoted literal.
    pub open spec fn written(self) -> Seq<char> {
        match self {
            LibView::Dom => "Dom"@,
            LibView::DomIterable => "DOM.ITERABLE"@,
            LibView::Es5 => "Es5"@,
            LibView::Es6 => "Es6"@,
            LibView::Es7 => "Es7"@,
            LibView::Es2015 => "Es2015"@,
            LibView::Es2015Core => "ES2015.CORE"@,
            LibView::Es2015Collection => "ES2015.COLLECTION"@,
            LibView::Es2015Generator => "ES2015.GENERATOR"@,
            LibView::Es2015Iterable => "ES2015.ITERABLE"@,
            LibView::Es2015Promise => "ES2015.PROMISE"@,
            LibView::Es2015Proxy => "ES2015.PROXY"@,
            LibView::Es2015Reflect => "ES2015.REFLECT"@,
            LibView::Es2015Symbol => "ES2015.SYMBOL"@,
            LibView::Es2015SymbolWellKnown => "ES2015.SYMBOL.WELLKNOWN"@,
            LibView::Es2016 => "Es2016"@,
            LibView::Es2016ArrayInclude => "ES2016.ARRAY.INCLUDE"@,
            LibView::Es2017 => "Es2017"@,
            LibView::Es2017Intl => "ES2017.INTL"@,
            LibView::Es2017Object => "ES2017.OBJECT"@,
            LibView::Es2017SharedMemory => "ES2017.SHAREDMEMORY"@,
            LibView::Es2017String => "ES2017.STRING"@,
            LibView::Es2017TypedArrays => "ES2017.TYPEDARRAYS"@,
            LibView::Es2018 => "Es2018"@,
            LibView::Es2018Intl => "ES2018.INTL"@,
            LibView::Es2018Promise => "ES2018.PROMISE"@,
            LibView::Es2018RegExp => "ES2018.REGEXP"@,
            LibView::Es2019 => "Es2019"@,
            LibView::Es2019Array => "ES2019.ARRAY"@,
            LibView::Es2019Object => "ES2019.OBJECT"@,
            LibView::Es2019String => "ES2019.STRING"@,
            LibView::Es2019Symbol => "ES2019.SYMBOL"@,
            LibView::Es2020 => "Es2020"@,
            LibView::Es2020String => "ES2020.STRING"@,
            LibView::Es2020SymbolWellknown => "ES2020.SYMBOL.WELLKNOWN"@,
            LibView::Es2021 => "Es2021"@,
            LibView::Es2021Promise => "ES2021.PROMISE"@,
            LibView::Es2021String => "ES2021.STRING"@,
            LibView::Es2021Weakref => "ES2021.WEAKREF"@,
            LibView::Es2022 => "Es2022"@,
            LibView::EsNext => "EsNext"@,
            LibView::EsNextArray => "ESNEXT.ARRAY"@,
            LibView::EsNextAsyncIterable => "ESNEXT.ASYNCITERABLE"@,
            LibView::EsNextIntl => "ESNEXT.INTL"@,
            LibView::EsNextSymbol => "ESNEXT.SYMBOL"@,
            LibView::ScriptHost => "ScriptHost"@,
            LibView::WebWorker => "WebWorker"@,
            LibView::Other(text) => "Other("@ + debug_quoted(text) + ")"@,
        }
    }
}

impl Lib {
    /// The library that a name in upper case stands for.
    pub fn from_upper(upper: &str) -> (out: Lib)
        ensures
            out@ == lib_of(upper@),
    {
        if same_str(upper, "DOM") {
            Lib::Dom
        } else if same_str(upper, "DOM.ITERABLE") {
            Lib::DomIterable
        } else if same_str(upper, "ES5") {
            Lib::Es5
        } else if same_str(upper, "ES6") {
            Lib::Es6
        } else if same_str(upper, "ES7") {
            Lib::Es7
        } else if same_str(upper, "ES2015") {
            Lib::Es2015
        } else if same_str(upper, "ES2015.CORE") {
            Lib::Es2015Core
        } else if same_str(upper, "ES2015.COLLECTION") {
            Lib::Es2015Collection
        } else if same_str(upper, "ES2015.GENERATOR") {
            Lib::Es2015Generator
        } else if same_str(upper, "ES2015.ITERABLE") {
            Lib::Es2015Iterable
        } else if same_str(upper, "ES2015.PROMISE") {
            Lib::Es2015Promise
        } else if same_str(upper, "ES2015.PROXY") {
            Lib::Es2015Proxy
        } else if same_str(upper, "ES2015.REFLECT") {
            Lib::Es2015Reflect
        } else if same_str(upper, "ES2015.SYMBOL") {
            Lib::Es2015Symbol
        } else if same_str(upper, "ES2015.SYMBOL.WELLKNOWN") {
            Lib::Es2015SymbolWellKnown
        } else if same_str(upper, "ES2016") {
            Lib::Es2016
        } else if same_str(upper, "ES2016.ARRAY.INCLUDE") {
            Lib::Es2016ArrayInclude
        } else if same_str(upper, "ES2017") {
            Lib::Es2017
        } else if same_str(upper, "ES2017.INTL") {
            Lib::Es2017Intl
        } else if same_str(upper, "ES2017.OBJECT") {
            Lib::Es2017Object
        } else if same_str(upper, "ES2017.SHAREDMEMORY") {
            Lib::Es2017SharedMemory
        } else if same_str(upper, "ES2017.STRING") {
            Lib::Es2017String
        } else if same_str(upper, "ES2017.TYPEDARRAYS") {
            Lib::Es2017TypedArrays
        } else if same_str(upper, "ES2018") {
            Lib::Es2018
        } else if same_str(upper, "ES2018.INTL") {
            Lib::Es2018Intl
        } else if same_str(upper, "ES2018.PROMISE") {
            Lib::Es2018Promise
        } else if same_str(upper, "ES2018.REGEXP") {
            Lib::Es2018RegExp
        } else if same_str(upper, "ES2019") {
            Lib::Es2019
        } else if same_str(upper, "ES2019.ARRAY") {
            Lib::Es2019Array
        } else if same_str(upper, "ES2019.OBJECT") {
            Lib::Es2019Object
        } else if same_str(upper, "ES2019.STRING") {
            Lib::Es2019String
        } else if same_str(upper, "ES2019.SYMBOL") {
            Lib::Es2019Symbol
        } else if same_str(upper, "ES2020") {
            Lib::Es2020
        } else if same_str(upper, "ES2020.STRING") {
            Lib::Es2020String
        } else if same_str(upper, "ES2020.SYMBOL.WELLKNOWN") {
            Lib::Es2020SymbolWellknown
        } else if same_str(upper, "ES2021") {
            Lib::Es2021
        } else if same_str(upper, "ES2021.PROMISE") {
            Lib::Es2021Promise
        } else if same_str(upper, "ES2021.STRING") {
            Lib::Es2021String
        } else if same_str(upper, "ES2021.WEAKREF") {
            Lib::Es2021Weakref
        } else if same_str(upper, "ES2022") {
            Lib::Es2022
        } else if same_str(upper, "ESNEXT") {
            Lib::EsNext
        } else if same_str(upper, "ESNEXT.ARRAY") {
            Lib::EsNextArray
        } else if same_str(upper, "ESNEXT.ASYNCITERABLE") {
            Lib::EsNextAsyncIterable
        } else if same_str(upper, "ESNEXT.INTL") {
            Lib::EsNextIntl
        } else if same_str(upper, "ESNEXT.SYMBOL") {
            Lib::EsNextSymbol
        } else if same_str(upper, "SCRIPTHOST") {
            Lib::ScriptHost
        } else if same_str(upper, "WEBWORKER") {
            Lib::WebWorker
        } else {
            Lib::Other(upper.to_owned())
        }
    }

    /// The library that a name stands for, whatever its case.
    pub fn from_text(text: &str) -> (out: Lib)
        ensures
            out@ == lib_of(uppercase(text@)),
    {
        let upper = to_upper(text);
        Lib::from_upper(upper.as_str())
    }

    /// The library as it is written before its case is lowered.
    pub fn written(&self) -> (out: String)
        ensures
            out@ == self@.written(),
    {
        match self {
            Lib::Dom => "Dom".to_owned(),
            Lib::DomIterable => "DOM.ITERABLE".to_owned(),
            Lib::Es5 => "Es5".to_owned(),
            Lib::Es6 => "Es6".to_owned(),
            Lib::Es7 => "Es7".to_owned(),
            Lib::Es2015 => "Es2015".to_owned(),
            Lib::Es2015Core => "ES2015.CORE".to_owned(),
            Lib::Es2015Collection => "ES2015.COLLECTION".to_owned(),
            Lib::Es2015Generator => "ES2015.GENERATOR".to_owned(),
            Lib::Es2015Iterable => "ES2015.ITERABLE".to_owned(),
            Lib::Es2015Promise => "ES2015.PROMISE".to_owned(),
            Lib::Es2015Proxy => "ES2015.PROXY".to_owned(),
            Lib::Es2015Reflect => "ES2015.REFLECT".to_owned(),
            Lib::Es2015Symbol => "ES2015.SYMBOL".to_owned(),
            Lib::Es2015SymbolWellKnown => "ES2015.SYMBOL.WELLKNOWN".to_owned(),
            Lib::Es2016 => "Es2016".to_owned(),
            Lib::Es2016ArrayInclude => "ES2016.ARRAY.INCLUDE".to_owned(),
            Lib::Es2017 => "Es2017".to_owned(),
            Lib::Es2017Intl => "ES2017.INTL".to_owned(),
            Lib::Es2017Object => "ES2017.OBJECT".to_owned(),
            Lib::Es2017SharedMemory => "ES2017.SHAREDMEMORY".to_owned(),
            Lib::Es2017String => "ES2017.STRING".to_owned(),
            Lib::Es2017TypedArrays => "ES2017.TYPEDARRAYS".to_owned(),
            Lib::Es2018 => "Es2018".to_owned(),
            Lib::Es2018Intl => "ES2018.INTL".to_owned(),
            Lib::Es2018Promise => "ES2018.PROMISE".to_owned(),
            Lib::Es2018RegExp => "ES2018.REGEXP".to_owned(),
            Lib::Es2019 => "Es2019".to_owned(),
            Lib::Es2019Array => "ES2019.ARRAY".to_owned(),
            Lib::Es2019Object => "ES2019.OBJECT".to_owned(),
            Lib::Es2019String => "ES2019.STRING".to_owned(),
            Lib::Es2019Symbol => "ES2019.SYMBOL".to_owned(),
            Lib::Es2020 => "Es2020".to_owned(),
            Lib::Es2020String => "ES2020.STRING".to_owned(),
            Lib::Es2020SymbolWellknown => "ES2020.SYMBOL.WELLKNOWN".to_owned(),
            Lib::Es2021 => "Es2021".to_owned(),
            Lib::Es2021Promise => "ES2021.PROMISE".to_owned(),
            Lib::Es2021String => "ES2021.STRING".to_owned(),
            Lib::Es2021Weakref => "ES2021.WEAKREF".to_owned(),
            Lib::Es2022 => "Es2022".to_owned(),
            Lib::EsNext => "EsNext".to_owned(),
            Lib::EsNextArray => "ESNEXT.ARRAY".to_owned(),
            Lib::EsNextAsyncIterable => "ESNEXT.ASYNCITERABLE".to_owned(),
            Lib::EsNextIntl => "ESNEXT.INTL".to_owned(),
            Lib::EsNextSymbol => "ESNEXT.SYMBOL".to_owned(),
            Lib::ScriptHost => "ScriptHost".to_owned(),
            Lib::WebWorker => "WebWorker".to_owned(),
            Lib::Other(text) => {
                let mut out = "Other(".to_owned();
                out.append(debug_text(text.as_str()).as_str());
                out.append(")");
                out
            },
        }
    }

    /// The name of the library in a settings file: what is written, in
    /// lower case.
    pub fn serialized(&self) -> (out: String)
        ensures
            out@ == lowercase(self@.written()),
    {
        let written = self.written();
        to_lower(written.as_str())
    }
}

/// One of the references leads to `path`.
pub open spec fn refers_to(references: Seq<ReferenceView>, path: Seq<char>) -> bool {
    exists|i: int| 0 <= i < references.len() && (#[trigger] references[i]).path == path
}

/// The settings of one project, without those of the compiler.
#[derive(Debug, PartialEq, Eq)]
pub struct TsConfigJson {
    pub compile_on_save: Option<bool>,
    pub exclude: Option<Vec<String>>,
    pub extends: Option<String>,
    pub files: Option<Vec<String>>,
    /// The patterns of what is taken in.
    pub included: Option<Vec<String>>,
    pub references: Option<Vec<Reference>>,
    pub type_acquisition: Option<TypeAcquisition>,
}

impl Default for TsConfigJson {
    fn default() -> (out: Self)
        ensures
            out.compile_on_save is None,
            out.exclude is None,
            out.extends is None,
            out.files is None,
            out.included is None,
            out.references is None,
            out.type_acquisition is None,
    {
        TsConfigJson {
            compile_on_save: None,
            exclude: None,
            extends: None,
            files: None,
            included: None,
            references: None,
            type_acquisition: None,
        }
    }
}

/// The order of texts: by the first character in which they differ, and a
/// text before every text that it begins.
pub open spec fn text_le(a: Seq<char>, b: Seq<char>) -> bool
    decreases a.len(),
{
    if a.len() == 0 {
        true
    } else if b.len() == 0 {
        false
    } else if a[0] != b[0] {
        a[0] < b[0]
    } else {
        text_le(a.skip(1), b.skip(1))
    }
}

/// The references are in the order of their paths.
pub open spec fn in_path_order(references: Seq<ReferenceView>) -> bool {
    forall|i: int, j: int|
        0 <= i < j < references.len() ==> text_le(
            (#[trigger] references[i]).path,
            (#[trigger] references[j]).path,
        )
}

/// The references of a project, or none where the project has none.
pub open spec fn references_of(references: Option<Vec<Reference>>) -> Seq<ReferenceView> {
    match references {
        Some(list) => list.deep_view(),
        None => Seq::empty(),
    }
}

/// Where a reference to `path` goes among references that are in the order
/// of their paths: behind the last one whose path is not after `path`.
pub open spec fn slot_for(sorted: Seq<ReferenceView>, path: Seq<char>) -> int
    decreases sorted.len(),
{
    if sorted.len() == 0 {
        0
    } else if text_le(sorted.last().path, path) {
        sorted.len() as int
    } else {
        slot_for(sorted.drop_last(), path)
    }
}

/// The first `upto` references in the order of their paths; references
/// with the same path keep their order.
pub open spec fn path_sorted(references: Seq<ReferenceView>, upto: int) -> Seq<ReferenceView>
    decreases upto,
{
    if upto <= 0 {
        Seq::empty()
    } else {
        let rest = path_sorted(references, upto - 1);
        rest.insert(slot_for(rest, references[upto - 1].path), references[upto - 1])
    }
}

/// Of two texts, one is not after the other.
pub proof fn lemma_text_le_total(a: Seq<char>, b: Seq<char>)
    ensures
        text_le(a, b) || text_le(b, a),
    decreases a.len(),
{
    if a.len() > 0 && b.len() > 0 && a[0] == b[0] {
        lemma_text_le_total(a.skip(1), b.skip(1));
    }
}

/// The order of texts is transitive.
pub proof fn lemma_text_le_trans(a: Seq<char>, b: Seq<char>, c: Seq<char>)
    requires
        text_le(a, b),
        text_le(b, c),
    ensures
        text_le(a, c),
    decreases a.len(),
{
    if a.len() > 0 && b.len() > 0 && c.len() > 0 && a[0] == b[0] && b[0] == c[0] {
        lemma_text_le_trans(a.skip(1), b.skip(1), c.skip(1));
    }
}

proof fn lemma_slot(sorted: Seq<ReferenceView>, path: Seq<char>)
    ensures
        0 <= slot_for(sorted, path) <= sorted.len(),
        slot_for(sorted, path) > 0 ==> text_le(sorted[slot_for(sorted, path) - 1].path, path),
        forall|k: int|
            slot_for(sorted, path) <= k < sorted.len() ==> !text_le(
                (#[trigger] sorted[k]).path,
                path,
            ),
    decreases sorted.len(),
{
    if sorted.len() > 0 && !text_le(sorted.last().path, path) {
        lemma_slot(sorted.drop_last(), path);
        let j = slot_for(sorted.drop_last(), path);
        assert forall|k: int| j <= k < sorted.len() implies !text_le(
            (#[trigger] sorted[k]).path,
            path,
        ) by {
            if k < sorted.len() - 1 {
                assert(sorted.drop_last()[k] == sorted[k]);
            }
        }
        if j > 0 {
            assert(sorted.drop_last()[j - 1] == sorted[j - 1]);
        }
    }
}

/// The references that `path_sorted` gives are those that it was given,
/// in the order of their paths.
pub proof fn lemma_path_sorted(references: Seq<ReferenceView>, upto: int)
    requires
        0 <= upto <= references.len(),
    ensures
        path_sorted(references, upto).len() == upto,
        in_path_order(path_sorted(references, upto)),
        path_sorted(references, upto).to_multiset() == references.take(upto).to_multiset(),
    decreases upto,
{
    if upto > 0 {
        lemma_path_sorted(references, upto - 1);
        let rest = path_sorted(references, upto - 1);
        let x = references[upto - 1];
        let j = slot_for(rest, x.path);
        let all = rest.insert(j, x);
        lemma_slot(rest, x.path);
        rest.insert_ensures(j, x);
        assert forall|a: int, b: int| 0 <= a < b < all.len() implies text_le(
            (#[trigger] all[a]).path,
            (#[trigger] all[b]).path,
        ) by {
            if b < j {
                assert(all[a] == rest[a] && all[b] == rest[b]);
            } else if b == j {
                assert(all[a] == rest[a]);
                assert(all[b] == x);
                if a < j - 1 {
                    lemma_text_le_trans(rest[a].path, rest[j - 1].path, x.path);
                }
            } else {
                assert(all[b] == rest[b - 1]);
                if a < j {
                    assert(all[a] == rest[a]);
                } else if a == j {
                    assert(all[a] == x);
                    lemma_text_le_total(x.path, rest[b - 1].path);
                } else {
                    assert(all[a] == rest[a - 1]);
                }
            }
        }
        vstd::seq_lib::to_multiset_insert(rest, j, x);
        vstd::seq_lib::to_multiset_build(references.take(upto - 1), x);
        assert(references.take(upto) =~= references.take(upto - 1).push(x));
    } else {
        assert(references.take(0) =~= Seq::<ReferenceView>::empty());
    }
}

/// Whether text `a` is not after text `b`.
pub fn text_not_after(a: &String, b: &String) -> (out: bool)
    ensures
        out == text_le(a@, b@),
{
    let x = to_chars(a.as_str());
    let y = to_chars(b.as_str());
    let mut i: usize = 0;
    assert(x@.skip(0) =~= x@);
    assert(y@.skip(0) =~= y@);
    while i < x.len() && i < y.len() && x[i] == y[i]
        invariant
            i <= x.len(),
            i <= y.len(),
            text_le(x@, y@) == text_le(x@.skip(i as int), y@.skip(i as int)),
        decreases x.len() - i,
    {
        assert(x@.skip(i as int)[0] == x[i as int]);
        assert(y@.skip(i as int)[0] == y[i as int]);
        assert(x@.skip(i as int).skip(1) =~= x@.skip(i as int + 1));
        assert(y@.skip(i as int).skip(1) =~= y@.skip(i as int + 1));
        i += 1;
    }
    if i == x.len() {
        true
    } else if i == y.len() {
        false
    } else {
        assert(x@.skip(i as int)[0] == x[i as int]);
        assert(y@.skip(i as int)[0] == y[i as int]);
        x[i] < y[i]
    }
}

/// The references in the order of their paths.
pub fn sort_by_path(references: &Vec<Reference>) -> (out: Vec<Reference>)
    ensures
        out.deep_view() == path_sorted(references.deep_view(), references.len() as int),
{
    let ghost all = references.deep_view();
    let mut out: Vec<Reference> = Vec::new();
    assert(out.deep_view() =~= path_sorted(all, 0));
    let mut i: usize = 0;
    while i < references.len()
        invariant
            i <= references.len(),
            all == references.deep_view(),
            out.deep_view() == path_sorted(all, i as int),
        decreases references.len() - i,
    {
        let item = references[i].clone();
        assert(item@ == all[i as int]);
        let ghost sorted = out.deep_view();
        let mut j: usize = out.len();
        assert(sorted.take(j as int) =~= sorted);
        while j > 0 && !text_not_after(&out[j - 1].path, &item.path)
            invariant
                j <= out.len(),
                sorted == out.deep_view(),
                slot_for(sorted, item@.path) == slot_for(sorted.take(j as int), item@.path),
            decreases j,
        {
            assert(sorted.take(j as int).last() == sorted[j - 1]);
            assert(sorted.take(j as int).drop_last() =~= sorted.take(j - 1));
            j -= 1;
        }
        proof {
            if j > 0 {
                assert(sorted.take(j as int).last() == sorted[j - 1]);
            }
            assert(slot_for(sorted, item@.path) == j);
        }
        out.insert(j, item);
        assert(out.deep_view() =~= sorted.insert(j as int, all[i as int]));
        i += 1;
    }
    out
}

impl TsConfigJson {
    /// Adds a reference to the project at `path`, unless there is one, and
    /// puts the references in the order of their paths. Says whether the
    /// reference was added.
    pub fn add_project_ref(&mut self, path: String) -> (out: bool)
        ensures
            out == !refers_to(references_of(old(self).references), path@),
            !out ==> *final(self) == *old(self),
            out ==> {
                &&& final(self).references is Some
                &&& references_of(final(self).references) == path_sorted(
                    references_of(old(self).references).push(
                        ReferenceView { path: path@, prepend: None },
                    ),
                    references_of(old(self).references).len() as int + 1,
                )
                &&& references_of(final(self).references).to_multiset() == references_of(
                    old(self).references,
                ).push(ReferenceView { path: path@, prepend: None }).to_multiset()
                &&& in_path_order(references_of(final(self).references))
                &&& final(self).compile_on_save == old(self).compile_on_save
                &&& final(self).exclude == old(self).exclude
                &&& final(self).extends == old(self).extends
                &&& final(self).files == old(self).files
                &&& final(self).included == old(self).included
                &&& final(self).type_acquisition == old(self).type_acquisition
            },
    {
        let ghost before = references_of(self.references);
        let mut references: Vec<Reference> = Vec::new();
        match &self.references {
            Some(list) => {
                let mut i: usize = 0;
                while i < list.len()
                    invariant
                        i <= list.len(),
                        before == list.deep_view(),
                        before == references_of(old(self).references),
                        *self == *old(self),
                        references.deep_view() == before.take(i as int),
                        forall|k: int| 0 <= k < i ==> (#[trigger] before[k]).path != path@,
                    decreases list.len() - i,
                {
                    if same_text(&list[i].path, &path) {
                        assert(before[i as int].path == path@);
                        return false;
                    }
                    let ghost had = references.deep_view();
                    references.push(list[i].clone());
                    assert(references.deep_view() =~= had.push(before[i as int]));
                    assert(before.take(i as int + 1) =~= before.take(i as int).push(
                        before[i as int],
                    ));
                    i += 1;
                }
                assert(before.take(list.len() as int) =~= before);
            },
            None => {
                assert(references.deep_view() =~= before);
            },
        }
        let ghost had = references.deep_view();
        references.push(Reference { path, prepend: None });
        assert(references.deep_view() =~= had.push(ReferenceView { path: path@, prepend: None }));
        let ghost given = references.deep_view();
        let sorted = sort_by_path(&references);
        proof {
            lemma_path_sorted(given, given.len() as int);
            assert(given.take(given.len() as int) =~= given);
        }
        self.references = Some(sorted);
        true
    }
}

} // verus!
