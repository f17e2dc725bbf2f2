//! The definition of an object: the flat record of numbers that the game
//! keeps for it.

use vstd::prelude::*;
use crate::iff::ChunkId;

verus! {

/// Everything the game records of one object. The fields stand in the
/// order in which the record stores them.
#[derive(Clone, Debug)]
pub struct ObjectDefinition {
    pub chunk_label: String,
    pub chunk_id: ChunkId,
    pub version: i32,
    pub initialstacksize: i16,
    pub basegraphic: i16,
    pub numgraphics: i16,
    pub maintreeid: i16,
    pub gardeningtreeid: i16,
    pub treetableid: i16,
    pub interactiongroup: i16,
    pub object_type: i16,
    pub masterid: i16,
    pub subindex: i16,
    pub washhandstreeid: i16,
    pub animtableid: i16,
    pub guid: i32,
    pub disabled: i16,
    pub portaltreeid: i16,
    pub price: i16,
    pub bodystringsid: i16,
    pub slotsid: i16,
    pub allowintersectiontreeid: i16,
    pub usesfntable: i16,
    pub unused4: i16,
    pub preptreeid: i16,
    pub cooktreeid: i16,
    pub surfacetreeid: i16,
    pub disposetreeid: i16,
    pub foodtreeid: i16,
    pub pickupfromslottreeid: i16,
    pub washdishtreeid: i16,
    pub eatingsurfacetreeid: i16,
    pub sittreeid: i16,
    pub standtreeid: i16,
    pub saleprice: i16,
    pub initialdepreciation: i16,
    pub dailydepreciation: i16,
    pub selfdepreciating: i16,
    pub depreciationlimit: i16,
    pub roomflags: i16,
    pub functionflags: i16,
    pub catalogid: i16,
    pub globalsimulationobject: i16,
    pub inittreeid: i16,
    pub placementtreeid: i16,
    pub userpickuptreeid: i16,
    pub wallstyle: i16,
    pub loadtreeid: i16,
    pub userplacementtreeid: i16,
    pub objectversion: i16,
    pub roomchangedtreeid: i16,
    pub motiveeffectsid: i16,
    pub cleanuptreeid: i16,
    pub levelinforequesttreeid: i16,
    pub catalogpopupid: i16,
    pub servingsurfacetreeid: i16,
    pub leveloffset: i16,
    pub shadow: i16,
    pub numattributes: i16,
    pub cleantreeid: i16,
    pub queueskippedtreeid: i16,
    pub frontfacedirection: i16,
    pub walladjacencychangedtreeid: i16,
    pub leadobject: i16,
    pub dynspritebaseid: i16,
    pub numdynsprites: i16,
    pub chairentryflags: i16,
    pub tilewidth: i16,
    pub suitnotcopyable: i16,
    pub buildmodetype: i16,
    pub originalguid: i32,
    pub originalsuitguid: i32,
    pub pickuptreeid: i16,
    pub thumbnailgraphicindex: i16,
    pub shadowflags: i16,
    pub footprintinsetmask: i16,
    pub mtadjupdatetreeid: i16,
    pub shadowbrightness: i16,
    pub repairtreeid: i16,
    pub customwallstyleid: i16,
    pub ratinghunger: i16,
    pub ratingcomfort: i16,
    pub ratinghygiene: i16,
    pub ratingbladder: i16,
    pub ratingenergy: i16,
    pub ratingfun: i16,
    pub ratingroom: i16,
    pub ratingskillflags: i16,
    pub numtypeattributes: i16,
    pub miscflags: i16,
    pub typeattrguid: i32,
    pub functionsubsort: i16,
    pub downtownsort: i16,
    pub keepbuying: i16,
    pub vacationsort: i16,
    pub resetlotaction: i16,
    pub communitysort: i16,
    pub dreamflags: i16,
    pub renderflags: i16,
    pub unused8: i16,
    pub unused9: i16,
    pub unused10: i16,
    pub unused11: i16,
    pub unused12: i16,
    pub unused13: i16,
}

} // verus!
