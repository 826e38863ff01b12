//! Catalog and show records shared by the catalog, browser and download code.
use vstd::prelude::*;
use crate::service::Service;

verus! {

/// One show as listed in an artist catalog.
#[derive(Debug, Clone)]
pub struct CatalogShow {
    pub container_id: i64,
    pub artist_id: i64,
    pub artist_name: String,
    pub container_info: String,
    pub venue_name: String,
    pub venue_city: String,
    pub venue_state: String,
    pub performance_date: String,
    pub performance_date_formatted: String,
    pub performance_date_year: String,
    pub image_url: String,
    pub song_list: String,
    pub service: Service,
}

impl Default for CatalogShow {
    fn default() -> (r: Self)
        ensures
            r.container_id == 0,
            r.artist_id == 0,
            r.artist_name@.len() == 0,
            r.container_info@.len() == 0,
            r.venue_name@.len() == 0,
            r.venue_city@.len() == 0,
            r.venue_state@.len() == 0,
            r.performance_date@.len() == 0,
            r.performance_date_formatted@.len() == 0,
            r.performance_date_year@.len() == 0,
            r.image_url@.len() == 0,
            r.song_list@.len() == 0,
            r.service == Service::Nugs,
    {
        CatalogShow {
            container_id: 0,
            artist_id: 0,
            artist_name: String::new(),
            container_info: String::new(),
            venue_name: String::new(),
            venue_city: String::new(),
            venue_state: String::new(),
            performance_date: String::new(),
            performance_date_formatted: String::new(),
            performance_date_year: String::new(),
            image_url: String::new(),
            song_list: String::new(),
            service: Service::Nugs,
        }
    }
}

impl CatalogShow {
    /// A field-by-field copy.
    pub fn duplicate(&self) -> (r: Self)
        ensures
            r == *self,
    {
        CatalogShow {
            container_id: self.container_id,
            artist_id: self.artist_id,
            artist_name: self.artist_name.clone(),
            container_info: self.container_info.clone(),
            venue_name: self.venue_name.clone(),
            venue_city: self.venue_city.clone(),
            venue_state: self.venue_state.clone(),
            performance_date: self.performance_date.clone(),
            performance_date_formatted: self.performance_date_formatted.clone(),
            performance_date_year: self.performance_date_year.clone(),
            image_url: self.image_url.clone(),
            song_list: self.song_list.clone(),
            service: self.service,
        }
    }
}

/// One track of a show.
#[derive(Debug, Clone)]
pub struct Track {
    pub track_id: i64,
    pub song_id: i64,
    pub song_title: String,
    pub track_num: i64,
    pub disc_num: i64,
    pub set_num: i64,
    pub duration_seconds: i64,
    pub duration_display: String,
}

impl Track {
    /// A field-by-field copy.
    pub fn duplicate(&self) -> (r: Self)
        ensures
            r == *self,
    {
        Track {
            track_id: self.track_id,
            song_id: self.song_id,
            song_title: self.song_title.clone(),
            track_num: self.track_num,
            disc_num: self.disc_num,
            set_num: self.set_num,
            duration_seconds: self.duration_seconds,
            duration_display: self.duration_display.clone(),
        }
    }
}

/// A show with its track list.
#[derive(Debug, Clone)]
pub struct Show {
    pub container_id: i64,
    pub artist_name: String,
    pub container_info: String,
    pub venue_name: String,
    pub venue_city: String,
    pub venue_state: String,
    pub performance_date: String,
    pub performance_date_formatted: String,
    pub performance_date_year: String,
    pub artist_id: i64,
    pub total_duration_seconds: i64,
    pub total_duration_display: String,
    pub tracks: Vec<Track>,
    pub image_url: String,
}

} // verus!
